//! The accounts index: a JSON-encoded ordered sequence of account names,
//! stored as a single entry of the metadata namespace.
use vstd::prelude::*;

use crate::snapshot::str_eq;

verus! {

/// The deep view of a vector of names.
pub open spec fn names_view(v: Seq<String>) -> Seq<Seq<char>> {
    v.map_values(|s: String| s@)
}

/// The JSON bytes that serializing a sequence of names yields.  The
/// encoding is a function of the names alone.
pub uninterp spec fn accounts_json_of(names: Seq<Seq<char>>) -> Seq<u8>;

/// What deserializing bytes as a sequence of names yields; `None` when the
/// bytes are not valid JSON for it.  The result is a function of the bytes
/// alone.
pub uninterp spec fn accounts_parse_of(bytes: Seq<u8>) -> Option<Seq<Seq<char>>>;

/// Relies on serde_json::to_vec for a vector of strings: the bytes are a
/// function of the names alone, serializing a vector of strings cannot
/// fail, and deserializing the bytes yields the names again.
#[verifier::external_body]
pub fn encode_accounts(names: &Vec<String>) -> (r: Vec<u8>)
    ensures
        r@ == accounts_json_of(names_view(names@)),
        accounts_parse_of(r@) == Some(names_view(names@)),
{
    serde_json::to_vec(names).unwrap_or_default()
}

/// Relies on serde_json::from_slice for a vector of strings: the result is
/// a function of the bytes alone; bytes that are not JSON for a vector of
/// strings are rejected.
#[verifier::external_body]
pub fn decode_accounts(bytes: &[u8]) -> (r: Option<Vec<String>>)
    ensures
        match r {
            Some(v) => accounts_parse_of(bytes@) == Some(names_view(v@)),
            None => accounts_parse_of(bytes@) is None,
        },
{
    serde_json::from_slice::<Vec<String>>(bytes).ok()
}

/// Whether a name occurs in a vector of names.
pub fn names_contain(names: &Vec<String>, name: &str) -> (r: bool)
    ensures
        r == names_view(names@).contains(name@),
{
    let n = names.len();
    let mut i: usize = 0;
    while i < n
        invariant
            n == names@.len(),
            i <= n,
            forall|j: int| 0 <= j < i ==> names_view(names@)[j] != name@,
        decreases n - i,
    {
        if str_eq(names[i].as_str(), name) {
            assert(names_view(names@)[i as int] == name@);
            return true;
        }
        i += 1;
    }
    proof {
        if names_view(names@).contains(name@) {
            let j = choose|j: int| 0 <= j < names_view(names@).len() && names_view(names@)[j]
                == name@;
            assert(false);
        }
    }
    false
}

/// A sequence of names with every occurrence of one name removed, order
/// otherwise kept.
pub open spec fn remove_name(names: Seq<Seq<char>>, name: Seq<char>) -> Seq<Seq<char>>
    decreases names.len(),
{
    if names.len() == 0 {
        Seq::<Seq<char>>::empty()
    } else {
        let rest = remove_name(names.drop_last(), name);
        if names.last() == name {
            rest
        } else {
            rest.push(names.last())
        }
    }
}

/// Removing a name removes it: the result never contains it, and keeps
/// every other name.
pub proof fn lemma_remove_name(names: Seq<Seq<char>>, name: Seq<char>)
    ensures
        !remove_name(names, name).contains(name),
        forall|x: Seq<char>|
            x != name ==> (remove_name(names, name).contains(x) <==> names.contains(x)),
    decreases names.len(),
{
    let r = remove_name(names, name);
    if names.len() == 0 {
        assert(r.len() == 0);
        assert forall|x: Seq<char>| x != name implies (r.contains(x) <==> names.contains(x)) by {
            if r.contains(x) {
                let j = choose|j: int| 0 <= j < r.len() && r[j] == x;
                assert(false);
            }
            if names.contains(x) {
                let j = choose|j: int| 0 <= j < names.len() && names[j] == x;
                assert(false);
            }
        }
    } else {
        let t = names.drop_last();
        lemma_remove_name(t, name);
        let rt = remove_name(t, name);
        if r.contains(name) {
            let j = choose|j: int| 0 <= j < r.len() && r[j] == name;
            if names.last() == name {
                assert(rt[j] == name);
            } else {
                if j < r.len() - 1 {
                    assert(rt[j] == name);
                }
            }
        }
        assert forall|x: Seq<char>| x != name implies (r.contains(x) <==> names.contains(x)) by {
            if r.contains(x) {
                let j = choose|j: int| 0 <= j < r.len() && r[j] == x;
                if names.last() != name && j == r.len() - 1 {
                    assert(names[names.len() - 1] == x);
                } else {
                    assert(rt.contains(x));
                    assert(t.contains(x));
                    let j2 = choose|j2: int| 0 <= j2 < t.len() && t[j2] == x;
                    assert(names[j2] == x);
                }
            }
            if names.contains(x) {
                let j = choose|j: int| 0 <= j < names.len() && names[j] == x;
                if j == names.len() - 1 {
                    assert(r.last() == x);
                } else {
                    assert(t[j] == x);
                    assert(t.contains(x));
                    assert(rt.contains(x));
                    let j2 = choose|j2: int| 0 <= j2 < rt.len() && rt[j2] == x;
                    if names.last() == name {
                        assert(r[j2] == x);
                    } else {
                        assert(r[j2] == x);
                    }
                }
            }
        }
    }
}

/// A copy of the vector without the given name.
pub fn names_without(names: &Vec<String>, name: &str) -> (r: Vec<String>)
    ensures
        names_view(r@) == remove_name(names_view(names@), name@),
{
    let n = names.len();
    let mut out: Vec<String> = Vec::new();
    proof {
        assert(names_view(out@) =~= Seq::<Seq<char>>::empty());
        assert(names_view(names@).take(0) =~= Seq::<Seq<char>>::empty());
        assert(names_view(out@) =~= remove_name(names_view(names@).take(0), name@));
    }
    let mut i: usize = 0;
    while i < n
        invariant
            n == names@.len(),
            i <= n,
            names_view(out@) == remove_name(names_view(names@).take(i as int), name@),
        decreases n - i,
    {
        let ghost before = names_view(out@);
        let keep = !str_eq(names[i].as_str(), name);
        if keep {
            let s = names[i].clone();
            out.push(s);
        }
        proof {
            let full = names_view(names@);
            let t = full.take(i + 1 as int);
            assert(t.drop_last() =~= full.take(i as int));
            assert(t.last() == full[i as int]);
            if keep {
                assert(names_view(out@) =~= before.push(full[i as int]));
            } else {
                assert(names_view(out@) =~= before);
            }
        }
        i += 1;
    }
    proof {
        assert(names_view(names@).take(n as int) =~= names_view(names@));
    }
    out
}

} // verus!
