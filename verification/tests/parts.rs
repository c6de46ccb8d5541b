use credvault::codec::{parse_snapshot, serialize_snapshot};
use credvault::crypto::{aead_open, aead_seal, derive_key, random_bytes};
use credvault::decimal::{fmt_u64, parse_u64};
use credvault::jsonidx::{decode_accounts, encode_accounts, names_contain, names_without};
use credvault::namespace::{bytes_eq, Namespace};
use credvault::snapshot::{str_eq, Snapshot};

#[test]
fn namespace_get_insert_delete() {
    let mut ns = Namespace::new();
    assert!(ns.get(b"k").is_none());
    ns.insert(b"k".to_vec(), b"v1".to_vec());
    assert_eq!(ns.get(b"k").unwrap(), &b"v1".to_vec());
    ns.insert(b"k".to_vec(), b"v2".to_vec());
    assert_eq!(ns.get(b"k").unwrap(), &b"v2".to_vec());
    assert_eq!(ns.len(), 1);
    ns.delete(b"k");
    assert!(ns.get(b"k").is_none());
    assert_eq!(ns.len(), 0);
}

#[test]
fn namespaces_are_independent() {
    let mut snap = Snapshot::new();
    snap.ns_insert("one", b"k".to_vec(), b"1".to_vec());
    snap.ns_insert("two", b"k".to_vec(), b"2".to_vec());
    snap.ns_delete_key("one", b"k");
    assert!(snap.ns_get("one", b"k").is_none());
    assert_eq!(snap.ns_get("two", b"k").unwrap(), &b"2".to_vec());
}

#[test]
fn snapshot_serialization_round_trip() {
    let mut snap = Snapshot::new();
    snap.ns_insert("minecraft/alice", b"username".to_vec(), b"alice".to_vec());
    snap.ns_insert("minecraft/alice", b"uuid".to_vec(), b"u-1".to_vec());
    snap.ns_insert("metadata/accounts", b"accounts".to_vec(), b"[\"alice\"]".to_vec());
    let bytes = serialize_snapshot(&snap);
    let back = parse_snapshot(bytes.as_slice()).unwrap();
    assert_eq!(back.ns_get("minecraft/alice", b"username").unwrap(), &b"alice".to_vec());
    assert_eq!(back.ns_get("minecraft/alice", b"uuid").unwrap(), &b"u-1".to_vec());
    assert_eq!(
        back.ns_get("metadata/accounts", b"accounts").unwrap(),
        &b"[\"alice\"]".to_vec()
    );
    assert!(back.ns_get("minecraft/alice", b"missing").is_none());
}

#[test]
fn empty_snapshot_round_trip() {
    let snap = Snapshot::new();
    let bytes = serialize_snapshot(&snap);
    assert_eq!(bytes, 0u64.to_le_bytes().to_vec());
    let back = parse_snapshot(bytes.as_slice()).unwrap();
    assert!(back.ns_get("anything", b"k").is_none());
}

#[test]
fn parser_rejects_garbage() {
    assert!(parse_snapshot(b"").is_none());
    assert!(parse_snapshot(b"short").is_none());
    assert!(parse_snapshot(&[9u8; 64]).is_none());
    // A claimed namespace count with no namespaces behind it.
    let bytes = 5u64.to_le_bytes().to_vec();
    assert!(parse_snapshot(bytes.as_slice()).is_none());
}

#[test]
fn parser_rejects_trailing_bytes() {
    let snap = Snapshot::new();
    let mut bytes = serialize_snapshot(&snap);
    bytes.push(0);
    assert!(parse_snapshot(bytes.as_slice()).is_none());
}

#[test]
fn decimal_formatting_exact() {
    assert_eq!(fmt_u64(0), "0");
    assert_eq!(fmt_u64(7), "7");
    assert_eq!(fmt_u64(12345), "12345");
    assert_eq!(fmt_u64(u64::MAX), "18446744073709551615");
}

#[test]
fn decimal_parsing_exact() {
    assert_eq!(parse_u64("0"), Some(0));
    assert_eq!(parse_u64("007"), Some(7));
    assert_eq!(parse_u64("12345"), Some(12345));
    assert_eq!(parse_u64("18446744073709551615"), Some(u64::MAX));
    assert_eq!(parse_u64("18446744073709551616"), None);
    assert_eq!(parse_u64(""), None);
    assert_eq!(parse_u64("12a"), None);
    assert_eq!(parse_u64("-1"), None);
}

#[test]
fn decimal_round_trip() {
    for n in [0u64, 1, 9, 10, 99, 100, 4096, u64::MAX - 1, u64::MAX] {
        assert_eq!(parse_u64(fmt_u64(n).as_str()), Some(n));
    }
}

#[test]
fn accounts_index_json_exact() {
    let names = vec!["a".to_string(), "b".to_string()];
    let bytes = encode_accounts(&names);
    assert_eq!(bytes, b"[\"a\",\"b\"]".to_vec());
    let back = decode_accounts(bytes.as_slice()).unwrap();
    assert_eq!(back, names);
}

#[test]
fn accounts_index_rejects_bad_json() {
    assert!(decode_accounts(b"not json").is_none());
    assert!(decode_accounts(b"{\"a\":1}").is_none());
    assert!(decode_accounts(b"[1,2]").is_none());
}

#[test]
fn names_helpers() {
    let names = vec!["a".to_string(), "b".to_string(), "a".to_string()];
    assert!(names_contain(&names, "a"));
    assert!(!names_contain(&names, "c"));
    let kept = names_without(&names, "a");
    assert_eq!(kept, vec!["b".to_string()]);
}

#[test]
fn byte_and_str_equality() {
    assert!(bytes_eq(b"abc", b"abc"));
    assert!(!bytes_eq(b"abc", b"abd"));
    assert!(!bytes_eq(b"abc", b"ab"));
    assert!(str_eq("héllo", "héllo"));
    assert!(!str_eq("héllo", "hello"));
}

#[test]
fn key_derivation_is_deterministic() {
    let k1 = derive_key(b"password", b"0123456789abcdef").unwrap();
    let k2 = derive_key(b"password", b"0123456789abcdef").unwrap();
    assert_eq!(k1, k2);
    assert_eq!(k1.len(), 32);
    let k3 = derive_key(b"password", b"fedcba9876543210").unwrap();
    assert_ne!(k1, k3);
    let k4 = derive_key(b"other", b"0123456789abcdef").unwrap();
    assert_ne!(k1, k4);
    // The key is a real digest, not the password bytes handed back.
    assert_ne!(&k1[..8], b"password");
}

#[test]
fn key_derivation_rejects_short_salt() {
    assert!(derive_key(b"password", b"short").is_none());
}

#[test]
fn sealing_round_trip_and_authenticity() {
    let key = derive_key(b"password", b"0123456789abcdef").unwrap();
    let nonce = random_bytes(24).unwrap();
    let sealed = aead_seal(&key, &nonce, b"secret payload").unwrap();
    assert_ne!(&sealed[..], b"secret payload");
    assert_eq!(sealed.len(), b"secret payload".len() + 16);
    let opened = aead_open(&key, &nonce, &sealed).unwrap();
    assert_eq!(opened, b"secret payload".to_vec());
    let mut tampered = sealed.clone();
    tampered[0] ^= 1;
    assert!(aead_open(&key, &nonce, &tampered).is_none());
    let other_key = derive_key(b"other", b"0123456789abcdef").unwrap();
    assert!(aead_open(&other_key, &nonce, &sealed).is_none());
}

#[test]
fn random_bytes_have_requested_length() {
    let a = random_bytes(24).unwrap();
    let b = random_bytes(24).unwrap();
    assert_eq!(a.len(), 24);
    assert_eq!(b.len(), 24);
    assert_ne!(a, b);
}
