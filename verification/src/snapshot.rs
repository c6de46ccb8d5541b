//! The in-memory snapshot: all namespaces of an open vault.
//!
//! A snapshot is the decrypted content of the vault; namespaces are created
//! on first use and are independent of one another.
use vstd::prelude::*;

use crate::assoc::{
    distinct_keys, lemma_map_of_absent, lemma_map_of_index, lemma_map_of_push, lemma_map_of_update,
    map_of,
};
use crate::namespace::{bytes_eq, Namespace};
use vstd::string::StrSliceExecFns;
use vstd::string::StringSliceAdditionalSpecFns;
use vstd::utf8::encode_utf8_decode_utf8;

verus! {

/// Equality of two string slices.
pub fn str_eq(a: &str, b: &str) -> (r: bool)
    ensures
        r <==> a@ == b@,
{
    let r = bytes_eq(a.as_bytes(), b.as_bytes());
    proof {
        if a.spec_bytes() == b.spec_bytes() {
            encode_utf8_decode_utf8(a@);
            encode_utf8_decode_utf8(b@);
        }
    }
    r
}

/// The decrypted content of a vault: its namespaces, by name.
pub struct Snapshot {
    pub spaces: Vec<(String, Namespace)>,
}

impl View for Snapshot {
    type V = Map<Seq<char>, Map<Seq<u8>, Seq<u8>>>;

    open spec fn view(&self) -> Map<Seq<char>, Map<Seq<u8>, Seq<u8>>> {
        map_of(self.names_to_maps())
    }
}

impl Snapshot {
    /// The namespaces as a sequence of (name, contents) pairs, in storage order.
    pub open spec fn names_to_maps(&self) -> Seq<(Seq<char>, Map<Seq<u8>, Seq<u8>>)> {
        self.spaces@.map_values(|e: (String, Namespace)| (e.0@, e.1@))
    }

    /// The namespaces with their raw entry sequences, in storage order.
    pub open spec fn model(&self) -> Seq<(Seq<char>, Seq<(Seq<u8>, Seq<u8>)>)> {
        self.spaces@.map_values(|e: (String, Namespace)| (e.0@, e.1.model()))
    }

    /// Well-formed: namespace names are unique and each namespace is well-formed.
    pub open spec fn wf(&self) -> bool {
        &&& distinct_keys(self.names_to_maps())
        &&& forall|i: int| 0 <= i < self.spaces@.len() ==> (#[trigger] self.spaces@[i].1).wf()
    }

    /// An empty snapshot: no namespaces at all.
    pub fn new() -> (r: Snapshot)
        ensures
            r.wf(),
            r@ == Map::<Seq<char>, Map<Seq<u8>, Seq<u8>>>::empty(),
            r.model() == Seq::<(Seq<char>, Seq<(Seq<u8>, Seq<u8>)>)>::empty(),
    {
        let r = Snapshot { spaces: Vec::new() };
        assert(r.names_to_maps() =~= Seq::<(Seq<char>, Map<Seq<u8>, Seq<u8>>)>::empty());
        assert(r.model() =~= Seq::<(Seq<char>, Seq<(Seq<u8>, Seq<u8>)>)>::empty());
        r
    }

    /// Checks well-formedness: unique names, each namespace well-formed.
    pub fn check_wf(&self) -> (r: bool)
        ensures
            r == self.wf(),
    {
        let n = self.spaces.len();
        let mut i: usize = 0;
        while i < n
            invariant
                n == self.spaces@.len(),
                i <= n,
                forall|p: int, q: int|
                    0 <= p < q < i ==> (#[trigger] self.names_to_maps()[p]).0 != (
                    #[trigger] self.names_to_maps()[q]).0,
                forall|p: int| 0 <= p < i ==> (#[trigger] self.spaces@[p].1).wf(),
            decreases n - i,
        {
            if !self.spaces[i].1.check_wf() {
                return false;
            }
            let mut j: usize = 0;
            while j < i
                invariant
                    n == self.spaces@.len(),
                    i < n,
                    j <= i,
                    forall|q: int|
                        0 <= q < j ==> (#[trigger] self.names_to_maps()[q]).0
                            != self.names_to_maps()[i as int].0,
                decreases i - j,
            {
                if str_eq(self.spaces[j].0.as_str(), self.spaces[i].0.as_str()) {
                    assert(self.names_to_maps()[j as int].0 == self.names_to_maps()[i as int].0);
                    assert(!self.wf());
                    return false;
                }
                j += 1;
            }
            i += 1;
        }
        true
    }

    /// The position of the namespace with the given name, if any.
    fn find(&self, name: &str) -> (r: Option<usize>)
        ensures
            match r {
                Some(i) => i < self.spaces@.len() && self.spaces@[i as int].0@ == name@,
                None => forall|j: int| 0 <= j < self.spaces@.len() ==> self.spaces@[j].0@ != name@,
            },
    {
        let n = self.spaces.len();
        let mut i: usize = 0;
        while i < n
            invariant
                n == self.spaces@.len(),
                i <= n,
                forall|j: int| 0 <= j < i ==> self.spaces@[j].0@ != name@,
            decreases n - i,
        {
            if str_eq(self.spaces[i].0.as_str(), name) {
                return Some(i);
            }
            i += 1;
        }
        None
    }

    /// Whether a namespace with the given name exists.
    pub fn contains_ns(&self, name: &str) -> (r: bool)
        requires
            self.wf(),
        ensures
            r == self@.contains_key(name@),
    {
        let r = self.find(name);
        proof {
            match r {
                Some(i) => {
                    assert(self.names_to_maps()[i as int].0 == name@);
                    lemma_map_of_index(self.names_to_maps(), i as int);
                },
                None => {
                    lemma_map_of_absent(self.names_to_maps(), name@);
                },
            }
        }
        r.is_some()
    }

    /// The value under `key` in namespace `name`; `None` when the namespace
    /// or the key is absent.
    pub fn ns_get(&self, name: &str, key: &[u8]) -> (r: Option<&Vec<u8>>)
        requires
            self.wf(),
        ensures
            match r {
                Some(v) => self@.contains_key(name@) && self@[name@].contains_key(key@) && v@
                    == self@[name@][key@],
                None => !self@.contains_key(name@) || !self@[name@].contains_key(key@),
            },
    {
        match self.find(name) {
            Some(i) => {
                proof {
                    assert(self.names_to_maps()[i as int].0 == name@);
                    lemma_map_of_index(self.names_to_maps(), i as int);
                }
                self.spaces[i].1.get(key)
            },
            None => {
                proof {
                    lemma_map_of_absent(self.names_to_maps(), name@);
                }
                None
            },
        }
    }

    /// The contents of namespace `name` after this update: the old contents
    /// (empty if the namespace did not exist) with `key` bound to `value`.
    pub open spec fn spec_ns_inserted(
        v: Map<Seq<char>, Map<Seq<u8>, Seq<u8>>>,
        name: Seq<char>,
        key: Seq<u8>,
        value: Seq<u8>,
    ) -> Map<Seq<u8>, Seq<u8>> {
        if v.contains_key(name) {
            v[name].insert(key, value)
        } else {
            Map::<Seq<u8>, Seq<u8>>::empty().insert(key, value)
        }
    }

    /// Stores `value` under `key` in namespace `name`, creating the
    /// namespace if it does not exist.
    pub fn ns_insert(&mut self, name: &str, key: Vec<u8>, value: Vec<u8>)
        requires
            old(self).wf(),
        ensures
            final(self).wf(),
            final(self)@ == old(self)@.insert(
                name@,
                Snapshot::spec_ns_inserted(old(self)@, name@, key@, value@),
            ),
    {
        let ghost m0 = self.names_to_maps();
        match self.find(name) {
            Some(i) => {
                proof {
                    assert(m0[i as int].0 == name@);
                    lemma_map_of_index(m0, i as int);
                }
                let mut pair = self.spaces.remove(i);
                pair.1.insert(key, value);
                self.spaces.insert(i, pair);
                proof {
                    assert(self.names_to_maps() =~= m0.update(
                        i as int,
                        (m0[i as int].0, self.names_to_maps()[i as int].1),
                    ));
                    lemma_map_of_update(m0, i as int, self.names_to_maps()[i as int].1);
                    assert(forall|p: int|
                        0 <= p < self.names_to_maps().len()
                            ==> self.names_to_maps()[p].0 == m0[p].0);
                }
            },
            None => {
                let mut ns = Namespace::new();
                ns.insert(key, value);
                let owned = name.to_owned();
                self.spaces.push((owned, ns));
                proof {
                    assert(self.names_to_maps() =~= m0.push(
                        (name@, self.names_to_maps().last().1),
                    ));
                    lemma_map_of_push(m0, name@, self.names_to_maps().last().1);
                    lemma_map_of_absent(m0, name@);
                }
            },
        }
    }

    /// Removes `key` from namespace `name`; a no-op when the namespace does
    /// not exist.
    pub fn ns_delete_key(&mut self, name: &str, key: &[u8])
        requires
            old(self).wf(),
        ensures
            final(self).wf(),
            final(self)@ == if old(self)@.contains_key(name@) {
                old(self)@.insert(name@, old(self)@[name@].remove(key@))
            } else {
                old(self)@
            },
    {
        let ghost m0 = self.names_to_maps();
        match self.find(name) {
            Some(i) => {
                proof {
                    assert(m0[i as int].0 == name@);
                    lemma_map_of_index(m0, i as int);
                }
                let mut pair = self.spaces.remove(i);
                pair.1.delete(key);
                self.spaces.insert(i, pair);
                proof {
                    assert(self.names_to_maps() =~= m0.update(
                        i as int,
                        (m0[i as int].0, self.names_to_maps()[i as int].1),
                    ));
                    lemma_map_of_update(m0, i as int, self.names_to_maps()[i as int].1);
                    assert(forall|p: int|
                        0 <= p < self.names_to_maps().len()
                            ==> self.names_to_maps()[p].0 == m0[p].0);
                }
            },
            None => {
                proof {
                    lemma_map_of_absent(m0, name@);
                }
            },
        }
    }
}

/// The map a raw snapshot model denotes: namespaces by name, each a map.
pub open spec fn view_of_model(m: Seq<(Seq<char>, Seq<(Seq<u8>, Seq<u8>)>)>) -> Map<
    Seq<char>,
    Map<Seq<u8>, Seq<u8>>,
> {
    map_of(m.map_values(|sp: (Seq<char>, Seq<(Seq<u8>, Seq<u8>)>)| (sp.0, map_of(sp.1))))
}

/// A snapshot's view is its model's view.
pub proof fn lemma_view_of_model(s: &Snapshot)
    ensures
        s@ == view_of_model(s.model()),
{
    assert(s.names_to_maps() =~= s.model().map_values(
        |sp: (Seq<char>, Seq<(Seq<u8>, Seq<u8>)>)| (sp.0, map_of(sp.1)),
    ));
}

} // verus!
