//! The laws of the vault, proved once and for all inputs.
use vstd::prelude::*;

use crate::accounts::{
    account_ns, active_target, added_names, added_view, base_ns, deleted_view, entry_bytes,
    field_present, field_text, got_provider, index_names, k_access, k_accounts, k_emited,
    k_expires, k_provider, k_refresh, k_username, k_uuid, ns_meta_accounts, ns_meta_active,
    pointer_bad, pointer_entry, pointer_name, provider_of_tag, provider_tag, record_ns_view,
    record_present, record_texts_ok, switched_view, AccountRecord, Provider,
};
use crate::decimal::{dec_digits, lemma_dec_digits_val, parsed_u64_or_zero};
use crate::jsonidx::{lemma_remove_name, remove_name};
use crate::vault::{empty_model, spec_open_result, spec_unseal};
use vstd::utf8::{encode_utf8, encode_utf8_decode_utf8, encode_utf8_valid_utf8};

verus! {

/// Distinct texts have distinct encodings.
pub proof fn lemma_encode_ne(a: Seq<char>, b: Seq<char>)
    requires
        a != b,
    ensures
        encode_utf8(a) != encode_utf8(b),
{
    if encode_utf8(a) == encode_utf8(b) {
        encode_utf8_decode_utf8(a);
        encode_utf8_decode_utf8(b);
    }
}

/// The seven record keys are pairwise distinct.
pub proof fn lemma_record_keys_distinct()
    ensures
        k_username() != k_uuid(),
        k_username() != k_access(),
        k_username() != k_refresh(),
        k_username() != k_expires(),
        k_username() != k_emited(),
        k_username() != k_provider(),
        k_uuid() != k_access(),
        k_uuid() != k_refresh(),
        k_uuid() != k_expires(),
        k_uuid() != k_emited(),
        k_uuid() != k_provider(),
        k_access() != k_refresh(),
        k_access() != k_expires(),
        k_access() != k_emited(),
        k_access() != k_provider(),
        k_refresh() != k_expires(),
        k_refresh() != k_emited(),
        k_refresh() != k_provider(),
        k_expires() != k_emited(),
        k_expires() != k_provider(),
        k_emited() != k_provider(),
{
    reveal_strlit("username");
    reveal_strlit("uuid");
    reveal_strlit("access_token");
    reveal_strlit("refresh_token");
    reveal_strlit("expires_in");
    reveal_strlit("emited_at");
    reveal_strlit("provider");
    assert(("username")@.len() == 8);
    assert(("uuid")@.len() == 4);
    assert(("access_token")@.len() == 12);
    assert(("refresh_token")@.len() == 13);
    assert(("expires_in")@.len() == 10);
    assert(("emited_at")@.len() == 9);
    assert(("provider")@.len() == 8);
    assert(("username")@[0] == 'u');
    assert(("provider")@[0] == 'p');
    lemma_encode_ne(("username")@, ("uuid")@);
    lemma_encode_ne(("username")@, ("access_token")@);
    lemma_encode_ne(("username")@, ("refresh_token")@);
    lemma_encode_ne(("username")@, ("expires_in")@);
    lemma_encode_ne(("username")@, ("emited_at")@);
    lemma_encode_ne(("username")@, ("provider")@);
    lemma_encode_ne(("uuid")@, ("access_token")@);
    lemma_encode_ne(("uuid")@, ("refresh_token")@);
    lemma_encode_ne(("uuid")@, ("expires_in")@);
    lemma_encode_ne(("uuid")@, ("emited_at")@);
    lemma_encode_ne(("uuid")@, ("provider")@);
    lemma_encode_ne(("access_token")@, ("refresh_token")@);
    lemma_encode_ne(("access_token")@, ("expires_in")@);
    lemma_encode_ne(("access_token")@, ("emited_at")@);
    lemma_encode_ne(("access_token")@, ("provider")@);
    lemma_encode_ne(("refresh_token")@, ("expires_in")@);
    lemma_encode_ne(("refresh_token")@, ("emited_at")@);
    lemma_encode_ne(("refresh_token")@, ("provider")@);
    lemma_encode_ne(("expires_in")@, ("emited_at")@);
    lemma_encode_ne(("expires_in")@, ("provider")@);
    lemma_encode_ne(("emited_at")@, ("provider")@);
}

/// A profile's namespace is never one of the metadata namespaces.
pub proof fn lemma_account_ns_distinct(name: Seq<char>)
    ensures
        account_ns(name) != ns_meta_accounts(),
        account_ns(name) != ns_meta_active(),
{
    reveal_strlit("minecraft/");
    reveal_strlit("metadata/accounts");
    reveal_strlit("metadata/active_account");
    assert(account_ns(name)[1] == 'i');
    assert(ns_meta_accounts()[1] == 'e');
    assert(ns_meta_active()[1] == 'e');
}

/// Round trip: adding a record and reading the same profile back yields
/// the same username, uuid, access token, refresh token, expiry and
/// provider, for every provider whose tag round-trips.
pub proof fn lemma_add_then_get(
    v: Map<Seq<char>, Map<Seq<u8>, Seq<u8>>>,
    name: Seq<char>,
    rec: AccountRecord,
)
    requires
        index_names(v) is Some,
        rec.provider == Provider::Microsoft || rec.provider == Provider::Offline,
    ensures
        record_present(added_view(v, name, rec), name),
        record_texts_ok(added_view(v, name, rec), name),
        field_text(added_view(v, name, rec), name, k_username()) == rec.username@,
        field_text(added_view(v, name, rec), name, k_uuid()) == rec.uuid@,
        field_text(added_view(v, name, rec), name, k_access()) == rec.access_token@,
        field_text(added_view(v, name, rec), name, k_refresh()) == rec.refresh_token@,
        parsed_u64_or_zero(field_text(added_view(v, name, rec), name, k_expires()))
            == rec.expires_in,
        field_text(added_view(v, name, rec), name, k_emited()) == rec.emited_at@,
        got_provider(added_view(v, name, rec), name) == rec.provider,
{
    let va = added_view(v, name, rec);
    let nsv = account_ns(name);
    let m7 = record_ns_view(base_ns(v, nsv), rec);
    lemma_account_ns_distinct(name);
    lemma_record_keys_distinct();
    assert(va.contains_key(nsv));
    assert(va[nsv] == m7);
    assert(m7[k_username()] == encode_utf8(rec.username@));
    assert(m7[k_uuid()] == encode_utf8(rec.uuid@));
    assert(m7[k_access()] == encode_utf8(rec.access_token@));
    assert(m7[k_refresh()] == encode_utf8(rec.refresh_token@));
    assert(m7[k_expires()] == encode_utf8(dec_digits(rec.expires_in as nat)));
    assert(m7[k_emited()] == encode_utf8(rec.emited_at@));
    assert(m7[k_provider()] == encode_utf8(provider_tag(rec.provider)));
    encode_utf8_decode_utf8(rec.username@);
    encode_utf8_decode_utf8(rec.uuid@);
    encode_utf8_decode_utf8(rec.access_token@);
    encode_utf8_decode_utf8(rec.refresh_token@);
    encode_utf8_decode_utf8(dec_digits(rec.expires_in as nat));
    encode_utf8_decode_utf8(rec.emited_at@);
    encode_utf8_decode_utf8(provider_tag(rec.provider));
    encode_utf8_valid_utf8(rec.username@);
    encode_utf8_valid_utf8(rec.uuid@);
    encode_utf8_valid_utf8(rec.access_token@);
    encode_utf8_valid_utf8(rec.refresh_token@);
    encode_utf8_valid_utf8(dec_digits(rec.expires_in as nat));
    encode_utf8_valid_utf8(rec.emited_at@);
    encode_utf8_valid_utf8(provider_tag(rec.provider));
    lemma_dec_digits_val(rec.expires_in as nat);
    reveal_strlit("microsoft");
    reveal_strlit("offline");
    assert(("offline")@.len() == 7);
    assert(("microsoft")@.len() == 9);
    assert(provider_of_tag(provider_tag(rec.provider)) == rec.provider);
}

/// How many times a name occurs in the index.
pub open spec fn count_of(names: Seq<Seq<char>>, name: Seq<char>) -> nat
    decreases names.len(),
{
    if names.len() == 0 {
        0
    } else {
        count_of(names.drop_last(), name) + (if names.last() == name {
            1nat
        } else {
            0nat
        })
    }
}

/// A name is absent exactly when its count is zero.
pub proof fn lemma_count_zero_iff_absent(names: Seq<Seq<char>>, name: Seq<char>)
    ensures
        count_of(names, name) == 0 <==> !names.contains(name),
    decreases names.len(),
{
    if names.len() == 0 {
        if names.contains(name) {
            let i = choose|i: int| 0 <= i < names.len() && names[i] == name;
        }
    } else {
        lemma_count_zero_iff_absent(names.drop_last(), name);
        let t = names.drop_last();
        if names.last() == name {
            assert(names[names.len() - 1] == name);
        } else {
            if names.contains(name) {
                let i = choose|i: int| 0 <= i < names.len() && names[i] == name;
                assert(t[i] == name);
            }
            if t.contains(name) {
                let i = choose|i: int| 0 <= i < t.len() && t[i] == name;
                assert(names[i] == name);
            }
        }
    }
}

/// Appending a member at the end adds one to its count.
pub proof fn lemma_count_push(names: Seq<Seq<char>>, y: Seq<char>, name: Seq<char>)
    ensures
        count_of(names.push(y), name) == count_of(names, name) + (if y == name {
            1nat
        } else {
            0nat
        }),
{
    assert(names.push(y).drop_last() =~= names);
    assert(names.push(y).last() == y);
}

/// Index consistency: after a name is added to an index that holds it at
/// most once, the index holds it exactly once.
pub proof fn lemma_added_names_once(names: Seq<Seq<char>>, name: Seq<char>)
    requires
        count_of(names, name) <= 1,
    ensures
        count_of(added_names(names, name), name) == 1,
        added_names(names, name).contains(name),
    decreases names.len(),
{
    lemma_count_zero_iff_absent(names, name);
    if names.contains(name) {
        assert(added_names(names, name) == names);
        assert(count_of(names, name) >= 1) by {
            assert(count_of(names, name) != 0);
        }
    } else {
        lemma_count_push(names, name, name);
        assert(added_names(names, name)[names.len() as int] == name);
    }
}

/// Adding the same name twice is the same as adding it once.
pub proof fn lemma_added_names_idempotent(names: Seq<Seq<char>>, name: Seq<char>)
    ensures
        added_names(added_names(names, name), name) == added_names(names, name),
{
    if !names.contains(name) {
        assert(names.push(name)[names.len() as int] == name);
        assert(names.push(name).contains(name));
    }
}

/// Delete removes from the index: after a name is removed, the index does
/// not contain it, and every other name is kept.
pub proof fn lemma_delete_removes_from_index(names: Seq<Seq<char>>, name: Seq<char>)
    ensures
        !remove_name(names, name).contains(name),
        forall|x: Seq<char>|
            x != name ==> (remove_name(names, name).contains(x) <==> names.contains(x)),
{
    lemma_remove_name(names, name);
}

/// Missing-field policy: a profile with no access token stored reads as
/// absent, whatever else its namespace holds.
pub proof fn lemma_missing_fields_read_absent(
    v: Map<Seq<char>, Map<Seq<u8>, Seq<u8>>>,
    name: Seq<char>,
)
    requires
        entry_bytes(v, account_ns(name), k_access()) is None,
    ensures
        !record_present(v, name),
{
}

/// Corruption recovery: a blob that does not unseal is discarded, and
/// opening yields an empty vault without surfacing an error.
pub proof fn lemma_corrupt_blob_repairs(key: Seq<u8>, blob: Seq<u8>)
    requires
        spec_unseal(key, blob) is None,
    ensures
        spec_open_result(key, Some(blob)).0 == empty_model(),
        spec_open_result(key, Some(blob)).1 is None,
{
}

/// Durability: a blob that unseals to a snapshot reopens to exactly that
/// snapshot, and is kept.
pub proof fn lemma_commit_then_open_restores(
    key: Seq<u8>,
    blob: Seq<u8>,
    m: Seq<(Seq<char>, Seq<(Seq<u8>, Seq<u8>)>)>,
)
    requires
        spec_unseal(key, blob) == Some(m),
    ensures
        spec_open_result(key, Some(blob)) == (m, Some(blob)),
{
}

/// Active pointer default: with no pointer set, the active account is the
/// first entry of the index.
pub proof fn lemma_active_default_is_first(v: Map<Seq<char>, Map<Seq<u8>, Seq<u8>>>)
    requires
        !pointer_bad(v),
        pointer_name(v).len() == 0,
        index_names(v) is Some,
        index_names(v).unwrap().len() > 0,
    ensures
        active_target(v) == Some(index_names(v).unwrap()[0]),
{
}

/// Membership in an index with one more name at its end.
pub proof fn lemma_push_contains(names: Seq<Seq<char>>, y: Seq<char>, x: Seq<char>)
    ensures
        names.push(y).contains(x) <==> names.contains(x) || x == y,
{
    if names.push(y).contains(x) {
        let i = choose|i: int| 0 <= i < names.push(y).len() && names.push(y)[i] == x;
        if i < names.len() {
            assert(names[i] == x);
        }
    }
    if names.contains(x) {
        let i = choose|i: int| 0 <= i < names.len() && names[i] == x;
        assert(names.push(y)[i] == x);
    }
    if x == y {
        assert(names.push(y)[names.len() as int] == x);
    }
}

/// The index after a run of additions, one after another, as the single
/// exclusive region serializes them.
pub open spec fn add_all(names: Seq<Seq<char>>, newnames: Seq<Seq<char>>) -> Seq<Seq<char>>
    decreases newnames.len(),
{
    if newnames.len() == 0 {
        names
    } else {
        add_all(added_names(names, newnames.first()), newnames.drop_first())
    }
}

/// Serialized additions: adding distinct fresh names, in any order the
/// exclusive region happens to serialize them, grows the index by exactly
/// their number, keeps every old name, and loses none of the new ones.
pub proof fn lemma_serialized_adds(names0: Seq<Seq<char>>, newnames: Seq<Seq<char>>)
    requires
        forall|i: int, j: int| 0 <= i < j < newnames.len() ==> newnames[i] != newnames[j],
        forall|i: int| 0 <= i < newnames.len() ==> !names0.contains(#[trigger] newnames[i]),
    ensures
        add_all(names0, newnames).len() == names0.len() + newnames.len(),
        forall|i: int|
            0 <= i < newnames.len() ==> add_all(names0, newnames).contains(#[trigger] newnames[i]),
        forall|x: Seq<char>| names0.contains(x) ==> add_all(names0, newnames).contains(x),
    decreases newnames.len(),
{
    if newnames.len() > 0 {
        let f = newnames.first();
        let rest = newnames.drop_first();
        assert(!names0.contains(f));
        assert(added_names(names0, f) == names0.push(f));
        let n1 = names0.push(f);
        assert forall|i: int| 0 <= i < rest.len() implies !n1.contains(#[trigger] rest[i]) by {
            assert(rest[i] == newnames[i + 1]);
            assert(newnames[i + 1] != newnames[0]);
            lemma_push_contains(names0, f, rest[i]);
        }
        assert(forall|i: int, j: int|
            0 <= i < j < rest.len() ==> rest[i] == newnames[i + 1] && rest[j] == newnames[j + 1]);
        lemma_serialized_adds(n1, rest);
        assert(add_all(names0, newnames) == add_all(n1, rest));
        assert forall|i: int| 0 <= i < newnames.len() implies add_all(
            names0,
            newnames,
        ).contains(#[trigger] newnames[i]) by {
            if i == 0 {
                assert(n1[names0.len() as int] == f);
                assert(n1.contains(f));
            } else {
                assert(newnames[i] == rest[i - 1]);
            }
        }
        assert forall|x: Seq<char>| names0.contains(x) implies add_all(
            names0,
            newnames,
        ).contains(x) by {
            lemma_push_contains(names0, f, x);
        }
    }
}


/// Two profiles share a namespace only when they are the same profile.
pub proof fn lemma_account_ns_injective(a: Seq<char>, b: Seq<char>)
    requires
        account_ns(a) == account_ns(b),
    ensures
        a == b,
{
    reveal_strlit("minecraft/");
    assert(("minecraft/")@.len() == 10);
    assert(a =~= account_ns(a).subrange(10, account_ns(a).len() as int));
    assert(b =~= account_ns(b).subrange(10, account_ns(b).len() as int));
}

/// Adding one profile's record touches no entry of another profile.
pub proof fn lemma_add_preserves_others(
    v: Map<Seq<char>, Map<Seq<u8>, Seq<u8>>>,
    other: Seq<char>,
    name: Seq<char>,
    rec: AccountRecord,
)
    requires
        other != name,
        index_names(v) is Some,
    ensures
        forall|key: Seq<u8>|
            entry_bytes(added_view(v, name, rec), account_ns(other), key) == entry_bytes(
                v,
                account_ns(other),
                key,
            ),
{
    if account_ns(other) == account_ns(name) {
        lemma_account_ns_injective(other, name);
    }
    lemma_account_ns_distinct(other);
}

/// Deleting one profile touches no entry of another profile.
pub proof fn lemma_delete_preserves_others(
    v: Map<Seq<char>, Map<Seq<u8>, Seq<u8>>>,
    other: Seq<char>,
    name: Seq<char>,
)
    requires
        other != name,
        index_names(v) is Some,
    ensures
        forall|key: Seq<u8>|
            entry_bytes(deleted_view(v, name), account_ns(other), key) == entry_bytes(
                v,
                account_ns(other),
                key,
            ),
{
    if account_ns(other) == account_ns(name) {
        lemma_account_ns_injective(other, name);
    }
    lemma_account_ns_distinct(other);
}

/// Switching the active account touches no profile's record.
pub proof fn lemma_switch_preserves_records(
    v: Map<Seq<char>, Map<Seq<u8>, Seq<u8>>>,
    other: Seq<char>,
    name: Seq<char>,
)
    ensures
        forall|key: Seq<u8>|
            entry_bytes(switched_view(v, name), account_ns(other), key) == entry_bytes(
                v,
                account_ns(other),
                key,
            ),
        index_names(switched_view(v, name)) == index_names(v),
{
    lemma_account_ns_distinct(other);
    reveal_strlit("metadata/accounts");
    reveal_strlit("metadata/active_account");
    assert(ns_meta_accounts().len() == 17);
    assert(ns_meta_active().len() == 23);
}


/// Adding or deleting an account never moves the active-account pointer.
pub proof fn lemma_pointer_survives_add_delete(
    v: Map<Seq<char>, Map<Seq<u8>, Seq<u8>>>,
    name: Seq<char>,
    rec: AccountRecord,
)
    requires
        index_names(v) is Some,
    ensures
        pointer_entry(added_view(v, name, rec)) == pointer_entry(v),
        pointer_entry(deleted_view(v, name)) == pointer_entry(v),
{
    lemma_account_ns_distinct(name);
    reveal_strlit("metadata/accounts");
    reveal_strlit("metadata/active_account");
    assert(ns_meta_accounts().len() == 17);
    assert(ns_meta_active().len() == 23);
}

} // verus!
