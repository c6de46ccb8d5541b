//! The snapshot wire format.
//!
//! A snapshot is serialized as a count of namespaces followed by each
//! namespace: its length-prefixed UTF-8 name, a count of entries, and each
//! entry as a length-prefixed key and a length-prefixed value.  All counts
//! and lengths are 64-bit little-endian.  Parsing accepts exactly this
//! format and rejects duplicate namespace names or duplicate keys, so that
//! what it returns is always a well-formed snapshot.
use vstd::prelude::*;

use vstd::bytes::{
    lemma_auto_spec_u64_to_from_le_bytes, spec_u64_from_le_bytes, spec_u64_to_le_bytes,
    u64_from_le_bytes, u64_to_le_bytes,
};
use vstd::utf8::{decode_utf8, encode_utf8, valid_utf8};

use crate::assoc::distinct_keys;
use crate::namespace::Namespace;
use crate::snapshot::Snapshot;
use vstd::slice::{slice_subrange, slice_to_vec};
use vstd::string::StringSliceAdditionalSpecFns;

verus! {

/// Lengths and counts are stored as 64-bit values.
pub open spec fn fits_u64(n: nat) -> bool {
    n < 0x1_0000_0000_0000_0000
}

/// A length-prefixed byte string.
pub open spec fn lp(b: Seq<u8>) -> Seq<u8>
    recommends
        fits_u64(b.len()),
{
    spec_u64_to_le_bytes(b.len() as u64) + b
}

/// One entry: length-prefixed key, then length-prefixed value.
pub open spec fn ser_entry(e: (Seq<u8>, Seq<u8>)) -> Seq<u8> {
    lp(e.0) + lp(e.1)
}

/// A run of entries, in order.
pub open spec fn ser_entries(es: Seq<(Seq<u8>, Seq<u8>)>) -> Seq<u8>
    decreases es.len(),
{
    if es.len() == 0 {
        Seq::<u8>::empty()
    } else {
        ser_entry(es.first()) + ser_entries(es.drop_first())
    }
}

/// One namespace: its name's UTF-8 bytes, an entry count, and its entries.
pub open spec fn ser_space(sp: (Seq<char>, Seq<(Seq<u8>, Seq<u8>)>)) -> Seq<u8> {
    lp(encode_utf8(sp.0)) + spec_u64_to_le_bytes(sp.1.len() as u64) + ser_entries(sp.1)
}

/// A run of namespaces, in order.
pub open spec fn ser_spaces(sps: Seq<(Seq<char>, Seq<(Seq<u8>, Seq<u8>)>)>) -> Seq<u8>
    decreases sps.len(),
{
    if sps.len() == 0 {
        Seq::<u8>::empty()
    } else {
        ser_space(sps.first()) + ser_spaces(sps.drop_first())
    }
}

/// The whole snapshot: a namespace count, then the namespaces.
pub open spec fn spec_ser(m: Seq<(Seq<char>, Seq<(Seq<u8>, Seq<u8>)>)>) -> Seq<u8> {
    spec_u64_to_le_bytes(m.len() as u64) + ser_spaces(m)
}

/// Every length a serialized snapshot stores fits its 64-bit field.
pub open spec fn bounded_entries(es: Seq<(Seq<u8>, Seq<u8>)>) -> bool {
    &&& fits_u64(es.len())
    &&& forall|i: int|
        0 <= i < es.len() ==> fits_u64((#[trigger] es[i]).0.len()) && fits_u64(es[i].1.len())
}

/// Every length anywhere in the model fits its 64-bit field.
pub open spec fn bounded_model(m: Seq<(Seq<char>, Seq<(Seq<u8>, Seq<u8>)>)>) -> bool {
    &&& fits_u64(m.len())
    &&& forall|i: int|
        0 <= i < m.len() ==> fits_u64(encode_utf8((#[trigger] m[i]).0).len()) && bounded_entries(
            m[i].1,
        )
}

/// Unique namespace names, and unique keys inside each namespace.
pub open spec fn model_distinct(m: Seq<(Seq<char>, Seq<(Seq<u8>, Seq<u8>)>)>) -> bool {
    &&& distinct_keys(m)
    &&& forall|i: int| 0 <= i < m.len() ==> distinct_keys((#[trigger] m[i]).1)
}

/// Reads one length-prefixed byte string; yields it and the rest.
pub open spec fn parse_lp(b: Seq<u8>) -> Option<(Seq<u8>, Seq<u8>)> {
    if b.len() < 8 {
        None
    } else {
        let n = spec_u64_from_le_bytes(b.subrange(0, 8)) as int;
        if b.len() - 8 < n {
            None
        } else {
            Some((b.subrange(8, 8 + n), b.subrange(8 + n, b.len() as int)))
        }
    }
}

/// Reads `n` entries; yields them and the rest.
pub open spec fn parse_entries(b: Seq<u8>, n: nat) -> Option<(Seq<(Seq<u8>, Seq<u8>)>, Seq<u8>)>
    decreases n,
{
    if n == 0 {
        Some((Seq::<(Seq<u8>, Seq<u8>)>::empty(), b))
    } else {
        match parse_lp(b) {
            None => None,
            Some((k, r1)) => match parse_lp(r1) {
                None => None,
                Some((v, r2)) => match parse_entries(r2, (n - 1) as nat) {
                    None => None,
                    Some((es, r3)) => Some((seq![(k, v)] + es, r3)),
                },
            },
        }
    }
}

/// Reads one namespace; yields its name and entries, and the rest.
pub open spec fn parse_space(b: Seq<u8>) -> Option<
    ((Seq<char>, Seq<(Seq<u8>, Seq<u8>)>), Seq<u8>),
> {
    match parse_lp(b) {
        None => None,
        Some((nb, r1)) => if !valid_utf8(nb) {
            None
        } else if r1.len() < 8 {
            None
        } else {
            let n = spec_u64_from_le_bytes(r1.subrange(0, 8));
            match parse_entries(r1.subrange(8, r1.len() as int), n as nat) {
                None => None,
                Some((es, r2)) => Some(((decode_utf8(nb), es), r2)),
            }
        },
    }
}

/// Reads `n` namespaces; yields them and the rest.
pub open spec fn parse_spaces(b: Seq<u8>, n: nat) -> Option<
    (Seq<(Seq<char>, Seq<(Seq<u8>, Seq<u8>)>)>, Seq<u8>),
>
    decreases n,
{
    if n == 0 {
        Some((Seq::<(Seq<char>, Seq<(Seq<u8>, Seq<u8>)>)>::empty(), b))
    } else {
        match parse_space(b) {
            None => None,
            Some((sp, r1)) => match parse_spaces(r1, (n - 1) as nat) {
                None => None,
                Some((sps, r2)) => Some((seq![sp] + sps, r2)),
            },
        }
    }
}

/// Parses a whole snapshot blob.  The blob must be consumed exactly, and
/// the result must have unique namespace names and unique keys.
pub open spec fn spec_parse(b: Seq<u8>) -> Option<Seq<(Seq<char>, Seq<(Seq<u8>, Seq<u8>)>)>> {
    if b.len() < 8 {
        None
    } else {
        let n = spec_u64_from_le_bytes(b.subrange(0, 8));
        match parse_spaces(b.subrange(8, b.len() as int), n as nat) {
            None => None,
            Some((m, rest)) => if rest.len() == 0 && model_distinct(m) {
                Some(m)
            } else {
                None
            },
        }
    }
}

/// Parsing a length-prefixed byte string recovers it and the rest.
pub proof fn lemma_parse_lp(b: Seq<u8>, rest: Seq<u8>)
    requires
        fits_u64(b.len()),
    ensures
        parse_lp(lp(b) + rest) == Some((b, rest)),
{
    lemma_auto_spec_u64_to_from_le_bytes();
    let e = lp(b) + rest;
    assert(spec_u64_to_le_bytes(b.len() as u64).len() == 8);
    assert(e.subrange(0, 8) =~= spec_u64_to_le_bytes(b.len() as u64));
    let n = spec_u64_from_le_bytes(e.subrange(0, 8)) as int;
    assert(n == b.len());
    assert(e.subrange(8, 8 + n) =~= b);
    assert(e.subrange(8 + n, e.len() as int) =~= rest);
}

/// Parsing a serialized run of entries recovers it and the rest.
pub proof fn lemma_parse_entries(es: Seq<(Seq<u8>, Seq<u8>)>, rest: Seq<u8>)
    requires
        bounded_entries(es),
    ensures
        parse_entries(ser_entries(es) + rest, es.len()) == Some((es, rest)),
    decreases es.len(),
{
    if es.len() == 0 {
        assert(ser_entries(es) + rest =~= rest);
    } else {
        let e0 = es.first();
        let tail = es.drop_first();
        assert(ser_entries(es) + rest =~= lp(e0.0) + (lp(e0.1) + (ser_entries(tail) + rest)));
        lemma_parse_lp(e0.0, lp(e0.1) + (ser_entries(tail) + rest));
        lemma_parse_lp(e0.1, ser_entries(tail) + rest);
        assert(bounded_entries(tail)) by {
            assert(forall|i: int| 0 <= i < tail.len() ==> tail[i] == es[i + 1]);
        }
        lemma_parse_entries(tail, rest);
        assert(seq![(e0.0, e0.1)] + tail =~= es);
    }
}

/// Parsing a serialized namespace recovers it and the rest.
pub proof fn lemma_parse_space(sp: (Seq<char>, Seq<(Seq<u8>, Seq<u8>)>), rest: Seq<u8>)
    requires
        fits_u64(encode_utf8(sp.0).len()),
        bounded_entries(sp.1),
    ensures
        parse_space(ser_space(sp) + rest) == Some((sp, rest)),
{
    lemma_auto_spec_u64_to_from_le_bytes();
    let nb = encode_utf8(sp.0);
    let cnt = spec_u64_to_le_bytes(sp.1.len() as u64);
    assert(ser_space(sp) + rest =~= lp(nb) + (cnt + (ser_entries(sp.1) + rest)));
    lemma_parse_lp(nb, cnt + (ser_entries(sp.1) + rest));
    vstd::utf8::encode_utf8_valid_utf8(sp.0);
    vstd::utf8::encode_utf8_decode_utf8(sp.0);
    let r1 = cnt + (ser_entries(sp.1) + rest);
    assert(r1.subrange(0, 8) =~= cnt);
    assert(r1.subrange(8, r1.len() as int) =~= ser_entries(sp.1) + rest);
    lemma_parse_entries(sp.1, rest);
}

/// Parsing a serialized run of namespaces recovers it and the rest.
pub proof fn lemma_parse_spaces(sps: Seq<(Seq<char>, Seq<(Seq<u8>, Seq<u8>)>)>, rest: Seq<u8>)
    requires
        bounded_model(sps),
    ensures
        parse_spaces(ser_spaces(sps) + rest, sps.len()) == Some((sps, rest)),
    decreases sps.len(),
{
    if sps.len() == 0 {
        assert(ser_spaces(sps) + rest =~= rest);
    } else {
        let sp0 = sps.first();
        let tail = sps.drop_first();
        assert(ser_spaces(sps) + rest =~= ser_space(sp0) + (ser_spaces(tail) + rest));
        lemma_parse_space(sp0, ser_spaces(tail) + rest);
        assert(bounded_model(tail)) by {
            assert(forall|i: int| 0 <= i < tail.len() ==> tail[i] == sps[i + 1]);
        }
        lemma_parse_spaces(tail, rest);
        assert(seq![sp0] + tail =~= sps);
    }
}

/// Round trip: parsing a serialized well-formed snapshot model recovers it.
pub proof fn lemma_parse_ser(m: Seq<(Seq<char>, Seq<(Seq<u8>, Seq<u8>)>)>)
    requires
        bounded_model(m),
        model_distinct(m),
    ensures
        spec_parse(spec_ser(m)) == Some(m),
{
    lemma_auto_spec_u64_to_from_le_bytes();
    let b = spec_ser(m);
    let cnt = spec_u64_to_le_bytes(m.len() as u64);
    assert(b.subrange(0, 8) =~= cnt);
    assert(b.subrange(8, b.len() as int) =~= ser_spaces(m) + Seq::<u8>::empty());
    lemma_parse_spaces(m, Seq::<u8>::empty());
}


/// A serialized run of entries grows at its end.
pub proof fn lemma_ser_entries_snoc(es: Seq<(Seq<u8>, Seq<u8>)>)
    requires
        es.len() > 0,
    ensures
        ser_entries(es) == ser_entries(es.drop_last()) + ser_entry(es.last()),
    decreases es.len(),
{
    if es.len() == 1 {
        assert(es.drop_last() =~= Seq::<(Seq<u8>, Seq<u8>)>::empty());
        assert(es.drop_first() =~= Seq::<(Seq<u8>, Seq<u8>)>::empty());
        assert(ser_entries(es) =~= ser_entries(es.drop_last()) + ser_entry(es.last()));
    } else {
        let t = es.drop_first();
        lemma_ser_entries_snoc(t);
        assert(es.drop_last().first() == es.first());
        assert(es.drop_last().drop_first() =~= t.drop_last());
        assert(t.last() == es.last());
        assert(ser_entries(es) =~= ser_entries(es.drop_last()) + ser_entry(es.last()));
    }
}

/// A serialized run of namespaces grows at its end.
pub proof fn lemma_ser_spaces_snoc(sps: Seq<(Seq<char>, Seq<(Seq<u8>, Seq<u8>)>)>)
    requires
        sps.len() > 0,
    ensures
        ser_spaces(sps) == ser_spaces(sps.drop_last()) + ser_space(sps.last()),
    decreases sps.len(),
{
    if sps.len() == 1 {
        assert(sps.drop_last() =~= Seq::<(Seq<char>, Seq<(Seq<u8>, Seq<u8>)>)>::empty());
        assert(sps.drop_first() =~= Seq::<(Seq<char>, Seq<(Seq<u8>, Seq<u8>)>)>::empty());
        assert(ser_spaces(sps) =~= ser_spaces(sps.drop_last()) + ser_space(sps.last()));
    } else {
        let t = sps.drop_first();
        lemma_ser_spaces_snoc(t);
        assert(sps.drop_last().first() == sps.first());
        assert(sps.drop_last().drop_first() =~= t.drop_last());
        assert(t.last() == sps.last());
        assert(ser_spaces(sps) =~= ser_spaces(sps.drop_last()) + ser_space(sps.last()));
    }
}

/// Appends a byte slice to a buffer.
pub fn push_bytes(out: &mut Vec<u8>, b: &[u8])
    ensures
        final(out)@ == old(out)@ + b@,
{
    let ghost base = out@;
    let n = b.len();
    let mut i: usize = 0;
    while i < n
        invariant
            n == b@.len(),
            i <= n,
            out@ == base + b@.take(i as int),
        decreases n - i,
    {
        out.push(b[i]);
        proof {
            assert(b@.take(i + 1 as int) =~= b@.take(i as int).push(b@[i as int]));
        }
        i += 1;
    }
    proof {
        assert(b@.take(n as int) =~= b@);
    }
}

/// Appends a length-prefixed byte string to a buffer.
pub fn write_lp(out: &mut Vec<u8>, b: &[u8])
    ensures
        final(out)@ == old(out)@ + lp(b@),
{
    let n = b.len();
    let hdr = u64_to_le_bytes(n as u64);
    push_bytes(out, hdr.as_slice());
    push_bytes(out, b);
    proof {
        assert(old(out)@ + hdr@ + b@ =~= old(out)@ + lp(b@));
    }
}

/// Appends a namespace's serialized entries to a buffer.
fn write_entries(out: &mut Vec<u8>, ns: &Namespace)
    ensures
        final(out)@ == old(out)@ + ser_entries(ns.model()),
        bounded_entries(ns.model()),
{
    let ghost base = out@;
    let ghost m = ns.model();
    let n = ns.entries.len();
    let mut j: usize = 0;
    while j < n
        invariant
            n == ns.entries@.len(),
            m == ns.model(),
            j <= n,
            out@ == base + ser_entries(m.take(j as int)),
            forall|q: int|
                0 <= q < j ==> fits_u64((#[trigger] m[q]).0.len()) && fits_u64(m[q].1.len()),
        decreases n - j,
    {
        let kl = ns.entries[j].0.len();
        let vl = ns.entries[j].1.len();
        write_lp(out, ns.entries[j].0.as_slice());
        write_lp(out, ns.entries[j].1.as_slice());
        proof {
            let t = m.take(j + 1 as int);
            assert(t.drop_last() =~= m.take(j as int));
            assert(t.last() == m[j as int]);
            lemma_ser_entries_snoc(t);
            assert(base + ser_entries(m.take(j as int)) + lp(m[j as int].0) + lp(m[j as int].1)
                =~= base + ser_entries(t));
        }
        j += 1;
    }
    proof {
        assert(m.take(n as int) =~= m);
    }
}

/// Serializes a snapshot into the wire format.
pub fn serialize_snapshot(s: &Snapshot) -> (out: Vec<u8>)
    ensures
        out@ == spec_ser(s.model()),
        bounded_model(s.model()),
{
    let ghost m = s.model();
    let n = s.spaces.len();
    let mut out = u64_to_le_bytes(n as u64);
    let ghost base = out@;
    let mut i: usize = 0;
    while i < n
        invariant
            n == s.spaces@.len(),
            m == s.model(),
            base == spec_u64_to_le_bytes(n as u64),
            i <= n,
            out@ == base + ser_spaces(m.take(i as int)),
            forall|q: int|
                0 <= q < i ==> fits_u64(encode_utf8((#[trigger] m[q]).0).len()) && bounded_entries(
                    m[q].1,
                ),
        decreases n - i,
    {
        let ghost before = out@;
        let nl = s.spaces[i].0.as_str().as_bytes().len();
        proof {
            assert(nl == encode_utf8(m[i as int].0).len());
        }
        write_lp(&mut out, s.spaces[i].0.as_str().as_bytes());
        let cnt = u64_to_le_bytes(s.spaces[i].1.entries.len() as u64);
        push_bytes(&mut out, cnt.as_slice());
        write_entries(&mut out, &s.spaces[i].1);
        proof {
            let t = m.take(i + 1 as int);
            assert(t.drop_last() =~= m.take(i as int));
            assert(t.last() == m[i as int]);
            lemma_ser_spaces_snoc(t);
            assert(out@ =~= before + ser_space(m[i as int]));
            assert(before + ser_space(m[i as int]) =~= base + ser_spaces(t));
        }
        i += 1;
    }
    proof {
        assert(m.take(n as int) =~= m);
        assert(out@ =~= spec_ser(m));
    }
    out
}

/// Relies on String::from_utf8: succeeds exactly on valid UTF-8 input and
/// returns the string those bytes encode.
#[verifier::external_body]
pub fn bytes_to_string(b: Vec<u8>) -> (r: Option<String>)
    ensures
        match r {
            Some(s) => valid_utf8(b@) && s@ == decode_utf8(b@),
            None => !valid_utf8(b@),
        },
{
    String::from_utf8(b).ok()
}

/// The bytes from a position to the end.
pub open spec fn suffix(b: Seq<u8>, p: int) -> Seq<u8> {
    b.subrange(p, b.len() as int)
}

/// Prefixes already-parsed entries onto a parse result.
pub open spec fn prepend_entries(
    es: Seq<(Seq<u8>, Seq<u8>)>,
    r: Option<(Seq<(Seq<u8>, Seq<u8>)>, Seq<u8>)>,
) -> Option<(Seq<(Seq<u8>, Seq<u8>)>, Seq<u8>)> {
    match r {
        None => None,
        Some((es2, rest)) => Some((es + es2, rest)),
    }
}

/// Prefixes already-parsed namespaces onto a parse result.
pub open spec fn prepend_spaces(
    sps: Seq<(Seq<char>, Seq<(Seq<u8>, Seq<u8>)>)>,
    r: Option<(Seq<(Seq<char>, Seq<(Seq<u8>, Seq<u8>)>)>, Seq<u8>)>,
) -> Option<(Seq<(Seq<char>, Seq<(Seq<u8>, Seq<u8>)>)>, Seq<u8>)> {
    match r {
        None => None,
        Some((sps2, rest)) => Some((sps + sps2, rest)),
    }
}

/// The model of a raw entry vector.
pub open spec fn entries_model(es: Seq<(Vec<u8>, Vec<u8>)>) -> Seq<(Seq<u8>, Seq<u8>)> {
    es.map_values(|e: (Vec<u8>, Vec<u8>)| (e.0@, e.1@))
}

/// The model of a raw namespace vector.
pub open spec fn spaces_model(sps: Seq<(String, Namespace)>) -> Seq<
    (Seq<char>, Seq<(Seq<u8>, Seq<u8>)>),
> {
    sps.map_values(|e: (String, Namespace)| (e.0@, e.1.model()))
}

/// Reads one length-prefixed byte string starting at `pos`.
fn read_lp(b: &[u8], pos: usize) -> (r: Option<(Vec<u8>, usize)>)
    requires
        pos <= b@.len(),
    ensures
        match r {
            Some((v, p2)) => parse_lp(suffix(b@, pos as int)) == Some(
                (v@, suffix(b@, p2 as int)),
            ) && pos <= p2 <= b@.len(),
            None => parse_lp(suffix(b@, pos as int)) is None,
        },
{
    let n_total = b.len();
    if n_total - pos < 8 {
        return None;
    }
    let hdr = slice_subrange(b, pos, pos + 8);
    let n = u64_from_le_bytes(hdr);
    proof {
        assert(hdr@ =~= suffix(b@, pos as int).subrange(0, 8));
    }
    let rem = n_total - pos - 8;
    if n > rem as u64 {
        return None;
    }
    let nn = n as usize;
    let v = slice_to_vec(slice_subrange(b, pos + 8, pos + 8 + nn));
    proof {
        assert(v@ =~= suffix(b@, pos as int).subrange(8, 8 + n as int));
        assert(suffix(b@, (pos + 8 + nn) as int) =~= suffix(b@, pos as int).subrange(
            8 + n as int,
            suffix(b@, pos as int).len() as int,
        ));
    }
    Some((v, pos + 8 + nn))
}

/// Parses a snapshot blob; `None` exactly when the blob is not a complete,
/// well-formed serialized snapshot.
#[verifier::loop_isolation(false)]
pub fn parse_snapshot(b: &[u8]) -> (r: Option<Snapshot>)
    ensures
        match r {
            Some(s) => spec_parse(b@) == Some(s.model()) && s.wf(),
            None => spec_parse(b@) is None,
        },
{
    let n_total = b.len();
    if n_total < 8 {
        return None;
    }
    let hdr = slice_subrange(b, 0, 8);
    let n_spaces = u64_from_le_bytes(hdr);
    proof {
        assert(hdr@ =~= b@.subrange(0, 8));
        assert(suffix(b@, 8) =~= b@.subrange(8, b@.len() as int));
    }
    let mut spaces: Vec<(String, Namespace)> = Vec::new();
    let mut pos: usize = 8;
    let mut i: u64 = 0;
    proof {
        let t = parse_spaces(suffix(b@, 8), n_spaces as nat);
        assert(spaces_model(spaces@) =~= Seq::<(Seq<char>, Seq<(Seq<u8>, Seq<u8>)>)>::empty());
        match t {
            None => {},
            Some((m2, rest)) => {
                assert(spaces_model(spaces@) + m2 =~= m2);
            },
        }
        assert(prepend_spaces(spaces_model(spaces@), t) == t);
    }
    while i < n_spaces
        invariant
            8 <= pos <= n_total,
            i <= n_spaces,
            prepend_spaces(
                spaces_model(spaces@),
                parse_spaces(suffix(b@, pos as int), (n_spaces - i) as nat),
            ) == parse_spaces(suffix(b@, 8), n_spaces as nat),
        decreases n_spaces - i,
    {
        let ghost sps0 = spaces_model(spaces@);
        let ghost rem0 = (n_spaces - i) as nat;
        let name_read = read_lp(b, pos);
        if name_read.is_none() {
            proof {
                assert(parse_space(suffix(b@, pos as int)) is None);
                assert(parse_spaces(suffix(b@, pos as int), rem0) is None);
                assert(spec_parse(b@) is None);
            }
            return None;
        }
        let (nb, p1) = name_read.unwrap();
        let ghost nbv = nb@;
        let name_opt = bytes_to_string(nb);
        if name_opt.is_none() {
            proof {
                assert(parse_space(suffix(b@, pos as int)) is None);
                assert(parse_spaces(suffix(b@, pos as int), rem0) is None);
                assert(spec_parse(b@) is None);
            }
            return None;
        }
        let name = name_opt.unwrap();
        if n_total - p1 < 8 {
            proof {
                assert(suffix(b@, p1 as int).len() < 8);
                assert(parse_space(suffix(b@, pos as int)) is None);
                assert(parse_spaces(suffix(b@, pos as int), rem0) is None);
                assert(spec_parse(b@) is None);
            }
            return None;
        }
        let chdr = slice_subrange(b, p1, p1 + 8);
        let cnt = u64_from_le_bytes(chdr);
        proof {
            assert(chdr@ =~= suffix(b@, p1 as int).subrange(0, 8));
        }
        let mut entries: Vec<(Vec<u8>, Vec<u8>)> = Vec::new();
        let mut p: usize = p1 + 8;
        let mut j: u64 = 0;
        proof {
            assert(suffix(b@, p as int) =~= suffix(b@, p1 as int).subrange(
                8,
                suffix(b@, p1 as int).len() as int,
            ));
            let t = parse_entries(suffix(b@, p as int), cnt as nat);
            assert(entries_model(entries@) =~= Seq::<(Seq<u8>, Seq<u8>)>::empty());
            match t {
                None => {},
                Some((es2, rest)) => {
                    assert(entries_model(entries@) + es2 =~= es2);
                },
            }
            assert(prepend_entries(entries_model(entries@), t) == t);
        }
        let ghost entry_base = p;
        while j < cnt
            invariant
                entry_base <= p <= n_total,
                j <= cnt,
                prepend_entries(
                    entries_model(entries@),
                    parse_entries(suffix(b@, p as int), (cnt - j) as nat),
                ) == parse_entries(suffix(b@, entry_base as int), cnt as nat),
            decreases cnt - j,
        {
            let ghost es0 = entries_model(entries@);
            let ghost erem0 = (cnt - j) as nat;
            let k_read = read_lp(b, p);
            if k_read.is_none() {
                proof {
                    assert(parse_entries(suffix(b@, p as int), erem0) is None);
                    assert(parse_entries(suffix(b@, entry_base as int), cnt as nat) is None);
                    assert(parse_space(suffix(b@, pos as int)) is None);
                    assert(parse_spaces(suffix(b@, pos as int), rem0) is None);
                    assert(spec_parse(b@) is None);
                }
                return None;
            }
            let (kv, p2) = k_read.unwrap();
            let v_read = read_lp(b, p2);
            if v_read.is_none() {
                proof {
                    assert(parse_entries(suffix(b@, p as int), erem0) is None);
                    assert(parse_entries(suffix(b@, entry_base as int), cnt as nat) is None);
                    assert(parse_space(suffix(b@, pos as int)) is None);
                    assert(parse_spaces(suffix(b@, pos as int), rem0) is None);
                    assert(spec_parse(b@) is None);
                }
                return None;
            }
            let (vv, p3) = v_read.unwrap();
            let ghost kvv = kv@;
            let ghost vvv = vv@;
            entries.push((kv, vv));
            proof {
                assert(entries_model(entries@) =~= es0.push((kvv, vvv)));
                let inner = parse_entries(suffix(b@, p3 as int), (erem0 - 1) as nat);
                assert(parse_entries(suffix(b@, p as int), erem0) == prepend_entries(
                    seq![(kvv, vvv)],
                    inner,
                ));
                match inner {
                    None => {},
                    Some((es2, rest)) => {
                        assert(es0 + (seq![(kvv, vvv)] + es2) =~= es0.push((kvv, vvv)) + es2);
                    },
                }
            }
            p = p3;
            j += 1;
        }
        proof {
            assert(parse_entries(suffix(b@, p as int), 0) == Some(
                (Seq::<(Seq<u8>, Seq<u8>)>::empty(), suffix(b@, p as int)),
            ));
            assert(entries_model(entries@) + Seq::<(Seq<u8>, Seq<u8>)>::empty() =~= entries_model(
                entries@,
            ));
            assert(parse_entries(suffix(b@, entry_base as int), cnt as nat) == Some(
                (entries_model(entries@), suffix(b@, p as int)),
            ));
            assert(parse_space(suffix(b@, pos as int)) == Some(
                ((decode_utf8(nbv), entries_model(entries@)), suffix(b@, p as int)),
            ));
        }
        let ns = Namespace { entries };
        let ghost namev = name@;
        spaces.push((name, ns));
        proof {
            assert(spaces_model(spaces@) =~= sps0.push((namev, entries_model(ns.entries@))));
            let inner = parse_spaces(suffix(b@, p as int), (rem0 - 1) as nat);
            assert(parse_spaces(suffix(b@, pos as int), rem0) == prepend_spaces(
                seq![(namev, entries_model(ns.entries@))],
                inner,
            ));
            match inner {
                None => {},
                Some((m2, rest)) => {
                    assert(sps0 + (seq![(namev, entries_model(ns.entries@))] + m2) =~= sps0.push(
                        (namev, entries_model(ns.entries@)),
                    ) + m2);
                },
            }
        }
        pos = p;
        i += 1;
    }
    proof {
        assert(parse_spaces(suffix(b@, pos as int), 0) == Some(
            (Seq::<(Seq<char>, Seq<(Seq<u8>, Seq<u8>)>)>::empty(), suffix(b@, pos as int)),
        ));
        assert(spaces_model(spaces@) + Seq::<(Seq<char>, Seq<(Seq<u8>, Seq<u8>)>)>::empty()
            =~= spaces_model(spaces@));
        assert(parse_spaces(suffix(b@, 8), n_spaces as nat) == Some(
            (spaces_model(spaces@), suffix(b@, pos as int)),
        ));
    }
    if pos != n_total {
        proof {
            assert(suffix(b@, pos as int).len() > 0);
            assert(spec_parse(b@) is None);
        }
        return None;
    }
    let snap = Snapshot { spaces };
    proof {
        assert(suffix(b@, pos as int).len() == 0);
        assert(snap.model() == spaces_model(snap.spaces@));
    }
    if !snap.check_wf() {
        proof {
            lemma_wf_is_model_distinct(&snap);
            assert(spec_parse(b@) is None);
        }
        return None;
    }
    proof {
        lemma_wf_is_model_distinct(&snap);
        assert(spec_parse(b@) == Some(snap.model()));
    }
    Some(snap)
}

/// A snapshot is well-formed exactly when its model is distinct.
pub proof fn lemma_wf_is_model_distinct(s: &Snapshot)
    ensures
        s.wf() <==> model_distinct(s.model()),
{
    let nm = s.names_to_maps();
    let m = s.model();
    assert(nm.len() == m.len());
    assert forall|i: int| 0 <= i < m.len() implies (#[trigger] m[i]).0 == nm[i].0 && m[i].1
        == s.spaces@[i].1.model() by {}
    if s.wf() {
        assert forall|i: int, j: int| 0 <= i < j < m.len() implies (#[trigger] m[i]).0 != (
        #[trigger] m[j]).0 by {
            assert(nm[i].0 != nm[j].0);
        }
        assert forall|i: int| 0 <= i < m.len() implies distinct_keys((#[trigger] m[i]).1) by {
            assert(s.spaces@[i].1.wf());
        }
    }
    if model_distinct(m) {
        assert forall|i: int, j: int| 0 <= i < j < nm.len() implies (#[trigger] nm[i]).0 != (
        #[trigger] nm[j]).0 by {
            assert(m[i].0 != m[j].0);
        }
        assert forall|i: int| 0 <= i < s.spaces@.len() implies (#[trigger] s.spaces@[i].1).wf() by {
            assert(distinct_keys(m[i].1));
        }
    }
}

} // verus!
