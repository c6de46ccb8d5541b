//! The account store: add, get, list, delete and switch-active semantics
//! over two well-known kinds of namespaces.
//!
//! Credentials for profile `p` live in namespace `minecraft/p` as seven
//! string-valued entries; the ordered accounts index is a JSON entry of
//! `metadata/accounts`; the active-account pointer is a single entry of
//! `metadata/active_account`.
//!
//! Reads return the stored record as it is.  A caller that refreshes a
//! stale token does so after the call returned, outside the vault's
//! exclusive region, and persists the refreshed record with another add.
use vstd::prelude::*;

use crate::decimal::{fmt_u64, parse_u64, parsed_u64_or_zero};
use crate::errors::VaultError;
use crate::jsonidx::{
    accounts_json_of, accounts_parse_of, decode_accounts, encode_accounts, names_contain,
    names_view, names_without, remove_name,
};
use crate::snapshot::{str_eq, Snapshot};
use crate::vault::{
    commit_snapshot, delete_entry, heal_fails, healed_blob, healed_view, read_entry, spec_unseal,
    write_entry, BlobSlot, VaultState,
};
use crate::codec::bytes_to_string;
use vstd::string::{StrSliceExecFns, StringExecFns};
use vstd::utf8::{decode_utf8, encode_utf8, valid_utf8};

verus! {

/// The provider that issued a credential record.
#[derive(Clone, Copy, Debug, PartialEq, Eq, Structural)]
pub enum Provider {
    Microsoft,
    Offline,
    Azuriom,
    Custom,
}

/// One account's authentication material, as the vault stores and returns
/// it.  The issue timestamp is carried as opaque text.
#[derive(Clone, Debug)]
pub struct AccountRecord {
    pub username: String,
    pub uuid: String,
    pub access_token: String,
    pub refresh_token: String,
    pub expires_in: u64,
    pub emited_at: String,
    pub provider: Provider,
}

/// The public part of a profile: what a display surface needs.
#[derive(Clone, Debug)]
pub struct UserProfilePartial {
    pub username: String,
    pub uuid: String,
}

/// The string tag a provider is stored under.
pub open spec fn provider_tag(p: Provider) -> Seq<char> {
    match p {
        Provider::Microsoft => "microsoft"@,
        Provider::Offline => "offline"@,
        _ => "unknown"@,
    }
}

/// The provider a stored tag denotes; anything unrecognized reads as
/// the offline provider.
pub open spec fn provider_of_tag(t: Seq<char>) -> Provider {
    if t == "microsoft"@ {
        Provider::Microsoft
    } else {
        Provider::Offline
    }
}

/// The stored tag of a provider.
pub fn provider_tag_str(p: &Provider) -> (r: &'static str)
    ensures
        r@ == provider_tag(*p),
{
    match p {
        Provider::Microsoft => "microsoft",
        Provider::Offline => "offline",
        _ => "unknown",
    }
}

/// The provider a tag denotes.
pub fn provider_from_tag(t: &str) -> (r: Provider)
    ensures
        r == provider_of_tag(t@),
{
    if str_eq(t, "microsoft") {
        Provider::Microsoft
    } else {
        Provider::Offline
    }
}

/// The key of the username entry.
pub open spec fn k_username() -> Seq<u8> {
    encode_utf8("username"@)
}

/// The key of the uuid entry.
pub open spec fn k_uuid() -> Seq<u8> {
    encode_utf8("uuid"@)
}

/// The key of the access-token entry.
pub open spec fn k_access() -> Seq<u8> {
    encode_utf8("access_token"@)
}

/// The key of the refresh-token entry.
pub open spec fn k_refresh() -> Seq<u8> {
    encode_utf8("refresh_token"@)
}

/// The key of the expiry entry.
pub open spec fn k_expires() -> Seq<u8> {
    encode_utf8("expires_in"@)
}

/// The key of the issue-timestamp entry.
pub open spec fn k_emited() -> Seq<u8> {
    encode_utf8("emited_at"@)
}

/// The key of the provider entry.
pub open spec fn k_provider() -> Seq<u8> {
    encode_utf8("provider"@)
}

/// The key of the accounts index entry.
pub open spec fn k_accounts() -> Seq<u8> {
    encode_utf8("accounts"@)
}

/// The key of the active-account pointer entry.
pub open spec fn k_active() -> Seq<u8> {
    encode_utf8("active_account"@)
}

/// The namespace holding the index.
pub open spec fn ns_meta_accounts() -> Seq<char> {
    "metadata/accounts"@
}

/// The namespace holding the active-account pointer.
pub open spec fn ns_meta_active() -> Seq<char> {
    "metadata/active_account"@
}

/// The namespace holding one profile's credentials.
pub open spec fn account_ns(name: Seq<char>) -> Seq<char> {
    "minecraft/"@ + name
}

/// The namespace name of one profile's credentials.
pub fn account_ns_string(name: &str) -> (r: String)
    ensures
        r@ == account_ns(name@),
{
    let mut s = String::from_str("minecraft/");
    s.append(name);
    s
}

/// The bytes stored under a key of a namespace, if both exist.
pub open spec fn entry_bytes(
    v: Map<Seq<char>, Map<Seq<u8>, Seq<u8>>>,
    ns: Seq<char>,
    key: Seq<u8>,
) -> Option<Seq<u8>> {
    if v.contains_key(ns) && v[ns].contains_key(key) {
        Some(v[ns][key])
    } else {
        None
    }
}

/// The profile's field under this key exists.
pub open spec fn field_present(
    v: Map<Seq<char>, Map<Seq<u8>, Seq<u8>>>,
    name: Seq<char>,
    key: Seq<u8>,
) -> bool {
    entry_bytes(v, account_ns(name), key) is Some
}

/// The profile's field under this key exists and is valid text.
pub open spec fn field_ok(
    v: Map<Seq<char>, Map<Seq<u8>, Seq<u8>>>,
    name: Seq<char>,
    key: Seq<u8>,
) -> bool {
    match entry_bytes(v, account_ns(name), key) {
        Some(b) => valid_utf8(b),
        None => false,
    }
}

/// The text of the profile's field under this key.
pub open spec fn field_text(
    v: Map<Seq<char>, Map<Seq<u8>, Seq<u8>>>,
    name: Seq<char>,
    key: Seq<u8>,
) -> Seq<char>
    recommends
        field_ok(v, name, key),
{
    decode_utf8(entry_bytes(v, account_ns(name), key).unwrap())
}

/// All six required fields of the record exist.  A profile missing any of
/// them reads as absent.
pub open spec fn record_present(v: Map<Seq<char>, Map<Seq<u8>, Seq<u8>>>, name: Seq<char>) -> bool {
    &&& field_present(v, name, k_username())
    &&& field_present(v, name, k_uuid())
    &&& field_present(v, name, k_access())
    &&& field_present(v, name, k_refresh())
    &&& field_present(v, name, k_expires())
    &&& field_present(v, name, k_emited())
}

/// Every stored field of the record is valid text.
pub open spec fn record_texts_ok(
    v: Map<Seq<char>, Map<Seq<u8>, Seq<u8>>>,
    name: Seq<char>,
) -> bool {
    &&& field_ok(v, name, k_username())
    &&& field_ok(v, name, k_uuid())
    &&& field_ok(v, name, k_access())
    &&& field_ok(v, name, k_refresh())
    &&& field_ok(v, name, k_expires())
    &&& field_ok(v, name, k_emited())
    &&& (field_present(v, name, k_provider()) ==> field_ok(v, name, k_provider()))
}

/// The provider the stored record denotes: the tag's provider, or the
/// offline provider when no tag is stored.
pub open spec fn got_provider(
    v: Map<Seq<char>, Map<Seq<u8>, Seq<u8>>>,
    name: Seq<char>,
) -> Provider
    recommends
        field_present(v, name, k_provider()) ==> field_ok(v, name, k_provider()),
{
    if field_present(v, name, k_provider()) {
        provider_of_tag(field_text(v, name, k_provider()))
    } else {
        Provider::Offline
    }
}

/// The record a read yields, matched field by field.
pub open spec fn record_matches(
    v: Map<Seq<char>, Map<Seq<u8>, Seq<u8>>>,
    name: Seq<char>,
    rec: AccountRecord,
) -> bool {
    &&& rec.username@ == field_text(v, name, k_username())
    &&& rec.uuid@ == field_text(v, name, k_uuid())
    &&& rec.access_token@ == field_text(v, name, k_access())
    &&& rec.refresh_token@ == field_text(v, name, k_refresh())
    &&& rec.expires_in == parsed_u64_or_zero(field_text(v, name, k_expires()))
    &&& rec.emited_at@ == field_text(v, name, k_emited())
    &&& rec.provider == got_provider(v, name)
}

/// The index entry's bytes, if stored.
pub open spec fn index_entry(v: Map<Seq<char>, Map<Seq<u8>, Seq<u8>>>) -> Option<Seq<u8>> {
    entry_bytes(v, ns_meta_accounts(), k_accounts())
}

/// The ordered account names the index holds: empty when no index entry is
/// stored, `None` when the stored entry is not valid JSON.
pub open spec fn index_names(v: Map<Seq<char>, Map<Seq<u8>, Seq<u8>>>) -> Option<Seq<Seq<char>>> {
    match index_entry(v) {
        None => Some(Seq::<Seq<char>>::empty()),
        Some(b) => accounts_parse_of(b),
    }
}

/// Reads and JSON-decodes the accounts index.  Never an error when the
/// vault has never been opened or the index entry is absent: those read as
/// the empty sequence.
pub fn list_accounts(state: &VaultState) -> (r: Result<Vec<String>, VaultError>)
    requires
        state.wf(),
    ensures
        match r {
            Ok(v) => {
                &&& !state.is_open() ==> names_view(v@) == Seq::<Seq<char>>::empty()
                &&& state.is_open() ==> index_names(state.open_view()) == Some(names_view(v@))
            },
            Err(e) => {
                &&& e == VaultError::EncodingError
                &&& state.is_open()
                &&& index_names(state.open_view()) is None
            },
        },
{
    let snap = match &state.snapshot {
        None => {
            let empty: Vec<String> = Vec::new();
            proof {
                assert(names_view(empty@) =~= Seq::<Seq<char>>::empty());
            }
            return Ok(empty);
        },
        Some(s) => s,
    };
    match snap.ns_get("metadata/accounts", ("accounts").as_bytes()) {
        None => {
            let empty: Vec<String> = Vec::new();
            proof {
                assert(names_view(empty@) =~= Seq::<Seq<char>>::empty());
            }
            Ok(empty)
        },
        Some(bytes) => match decode_accounts(bytes.as_slice()) {
            None => Err(VaultError::EncodingError),
            Some(v) => Ok(v),
        },
    }
}

/// The view after the active-account pointer is set to a name.
pub open spec fn switched_view(
    v: Map<Seq<char>, Map<Seq<u8>, Seq<u8>>>,
    name: Seq<char>,
) -> Map<Seq<char>, Map<Seq<u8>, Seq<u8>>> {
    v.insert(
        ns_meta_active(),
        Snapshot::spec_ns_inserted(v, ns_meta_active(), k_active(), encode_utf8(name)),
    )
}

/// Sets the active-account pointer to the given profile name and commits.
pub fn switch_active_account(
    state: &mut VaultState,
    disk: &mut BlobSlot,
    profile_name: &str,
) -> (r: Result<(), VaultError>)
    requires
        old(state).wf(),
    ensures
        final(state).wf(),
        match r {
            Ok(()) => {
                &&& !heal_fails(*old(state))
                &&& final(state).is_open()
                &&& final(state).ctx_view() == old(state).ctx_view()
                &&& final(state).open_view() == switched_view(
                    healed_view(*old(state), old(disk)@),
                    profile_name@,
                )
                &&& final(disk)@ is Some
                &&& spec_unseal(final(state).ctx_key(), final(disk)@.unwrap()) == Some(
                    final(state).open_model(),
                )
            },
            Err(e) => {
                &&& e == VaultError::NotInitialized ==> heal_fails(*old(state)) && *final(state)
                    == *old(state) && *final(disk) == *old(disk)
                &&& e == VaultError::CryptoFailed ==> !heal_fails(*old(state))
                    && final(state).is_open() && final(state).open_view() == switched_view(
                    healed_view(*old(state), old(disk)@),
                    profile_name@,
                ) && final(disk)@ == healed_blob(*old(state), old(disk)@)
                &&& (e == VaultError::NotInitialized || e == VaultError::CryptoFailed)
            },
        },
{
    match write_entry(
        state,
        disk,
        "metadata/active_account",
        ("active_account").as_bytes_vec(),
        profile_name.as_bytes_vec(),
    ) {
        Err(e) => Err(e),
        Ok(()) => commit_snapshot(state, disk),
    }
}


/// Both display fields of the profile exist.
pub open spec fn display_present(
    v: Map<Seq<char>, Map<Seq<u8>, Seq<u8>>>,
    name: Seq<char>,
) -> bool {
    field_present(v, name, k_username()) && field_present(v, name, k_uuid())
}

/// Both display fields are valid text.
pub open spec fn display_ok(v: Map<Seq<char>, Map<Seq<u8>, Seq<u8>>>, name: Seq<char>) -> bool {
    field_ok(v, name, k_username()) && field_ok(v, name, k_uuid())
}

/// Reads the full record of a profile.  A profile with any of the six
/// required fields missing reads as absent; a stored field that is not
/// valid text is an encoding error.
pub fn get_account(state: &mut VaultState, disk: &mut BlobSlot, profile_name: &str) -> (r: Result<
    Option<AccountRecord>,
    VaultError,
>)
    requires
        old(state).wf(),
    ensures
        final(state).wf(),
        match r {
            Ok(opt) => {
                &&& !heal_fails(*old(state))
                &&& final(state).is_open()
                &&& final(state).ctx_view() == old(state).ctx_view()
                &&& final(state).open_view() == healed_view(*old(state), old(disk)@)
                &&& final(disk)@ == healed_blob(*old(state), old(disk)@)
                &&& match opt {
                    Some(rec) => record_present(final(state).open_view(), profile_name@)
                        && record_texts_ok(final(state).open_view(), profile_name@)
                        && record_matches(final(state).open_view(), profile_name@, rec),
                    None => !record_present(final(state).open_view(), profile_name@),
                }
            },
            Err(e) => {
                &&& e == VaultError::NotInitialized ==> heal_fails(*old(state)) && *final(state)
                    == *old(state) && *final(disk) == *old(disk)
                &&& e == VaultError::EncodingError ==> !heal_fails(*old(state))
                    && final(state).is_open() && final(state).ctx_view() == old(state).ctx_view()
                    && final(state).open_view() == healed_view(*old(state), old(disk)@)
                    && final(disk)@ == healed_blob(*old(state), old(disk)@)
                    && record_present(final(state).open_view(), profile_name@)
                    && !record_texts_ok(final(state).open_view(), profile_name@)
                &&& (e == VaultError::NotInitialized || e == VaultError::EncodingError)
            },
        },
{
    let ns = account_ns_string(profile_name);
    let b_username = match read_entry(state, disk, ns.as_str(), ("username").as_bytes()) {
        Err(e) => {
            return Err(e);
        },
        Ok(v) => v,
    };
    let b_uuid = match read_entry(state, disk, ns.as_str(), ("uuid").as_bytes()) {
        Err(e) => {
            return Err(e);
        },
        Ok(v) => v,
    };
    let b_access = match read_entry(state, disk, ns.as_str(), ("access_token").as_bytes()) {
        Err(e) => {
            return Err(e);
        },
        Ok(v) => v,
    };
    let b_refresh = match read_entry(state, disk, ns.as_str(), ("refresh_token").as_bytes()) {
        Err(e) => {
            return Err(e);
        },
        Ok(v) => v,
    };
    let b_expires = match read_entry(state, disk, ns.as_str(), ("expires_in").as_bytes()) {
        Err(e) => {
            return Err(e);
        },
        Ok(v) => v,
    };
    let b_emited = match read_entry(state, disk, ns.as_str(), ("emited_at").as_bytes()) {
        Err(e) => {
            return Err(e);
        },
        Ok(v) => v,
    };
    let b_provider = match read_entry(state, disk, ns.as_str(), ("provider").as_bytes()) {
        Err(e) => {
            return Err(e);
        },
        Ok(v) => v,
    };
    let (b_username, b_uuid, b_access, b_refresh, b_expires, b_emited) = match (
        b_username,
        b_uuid,
        b_access,
        b_refresh,
        b_expires,
        b_emited,
    ) {
        (Some(a), Some(b), Some(c), Some(d), Some(e), Some(f)) => (a, b, c, d, e, f),
        _ => {
            return Ok(None);
        },
    };
    let username = match bytes_to_string(b_username) {
        None => {
            return Err(VaultError::EncodingError);
        },
        Some(s) => s,
    };
    let uuid = match bytes_to_string(b_uuid) {
        None => {
            return Err(VaultError::EncodingError);
        },
        Some(s) => s,
    };
    let access_token = match bytes_to_string(b_access) {
        None => {
            return Err(VaultError::EncodingError);
        },
        Some(s) => s,
    };
    let refresh_token = match bytes_to_string(b_refresh) {
        None => {
            return Err(VaultError::EncodingError);
        },
        Some(s) => s,
    };
    let expires_text = match bytes_to_string(b_expires) {
        None => {
            return Err(VaultError::EncodingError);
        },
        Some(s) => s,
    };
    let emited_at = match bytes_to_string(b_emited) {
        None => {
            return Err(VaultError::EncodingError);
        },
        Some(s) => s,
    };
    let provider = match b_provider {
        None => Provider::Offline,
        Some(b) => match bytes_to_string(b) {
            None => {
                return Err(VaultError::EncodingError);
            },
            Some(t) => provider_from_tag(t.as_str()),
        },
    };
    let expires_in = match parse_u64(expires_text.as_str()) {
        Some(n) => n,
        None => 0,
    };
    Ok(
        Some(
            AccountRecord {
                username,
                uuid,
                access_token,
                refresh_token,
                expires_in,
                emited_at,
                provider,
            },
        ),
    )
}

/// Reads the display part of a profile: username and uuid.  A profile
/// missing either reads as absent.
pub fn display_account(state: &mut VaultState, disk: &mut BlobSlot, profile_name: &str) -> (r:
    Result<Option<UserProfilePartial>, VaultError>)
    requires
        old(state).wf(),
    ensures
        final(state).wf(),
        match r {
            Ok(opt) => {
                &&& !heal_fails(*old(state))
                &&& final(state).is_open()
                &&& final(state).ctx_view() == old(state).ctx_view()
                &&& final(state).open_view() == healed_view(*old(state), old(disk)@)
                &&& final(disk)@ == healed_blob(*old(state), old(disk)@)
                &&& match opt {
                    Some(p) => display_present(final(state).open_view(), profile_name@)
                        && display_ok(final(state).open_view(), profile_name@) && p.username@
                        == field_text(final(state).open_view(), profile_name@, k_username())
                        && p.uuid@ == field_text(final(state).open_view(), profile_name@, k_uuid()),
                    None => !display_present(final(state).open_view(), profile_name@),
                }
            },
            Err(e) => {
                &&& e == VaultError::NotInitialized ==> heal_fails(*old(state)) && *final(state)
                    == *old(state) && *final(disk) == *old(disk)
                &&& e == VaultError::EncodingError ==> !heal_fails(*old(state))
                    && final(state).is_open() && final(state).open_view() == healed_view(
                    *old(state),
                    old(disk)@,
                ) && final(disk)@ == healed_blob(*old(state), old(disk)@) && display_present(
                    final(state).open_view(),
                    profile_name@,
                ) && !display_ok(final(state).open_view(), profile_name@)
                &&& (e == VaultError::NotInitialized || e == VaultError::EncodingError)
            },
        },
{
    let ns = account_ns_string(profile_name);
    let b_username = match read_entry(state, disk, ns.as_str(), ("username").as_bytes()) {
        Err(e) => {
            return Err(e);
        },
        Ok(v) => v,
    };
    let b_uuid = match read_entry(state, disk, ns.as_str(), ("uuid").as_bytes()) {
        Err(e) => {
            return Err(e);
        },
        Ok(v) => v,
    };
    let (b_username, b_uuid) = match (b_username, b_uuid) {
        (Some(a), Some(b)) => (a, b),
        _ => {
            return Ok(None);
        },
    };
    let username = match bytes_to_string(b_username) {
        None => {
            return Err(VaultError::EncodingError);
        },
        Some(s) => s,
    };
    let uuid = match bytes_to_string(b_uuid) {
        None => {
            return Err(VaultError::EncodingError);
        },
        Some(s) => s,
    };
    Ok(Some(UserProfilePartial { username, uuid }))
}


/// A namespace's contents, or empty when it does not exist.
pub open spec fn base_ns(
    v: Map<Seq<char>, Map<Seq<u8>, Seq<u8>>>,
    ns: Seq<char>,
) -> Map<Seq<u8>, Seq<u8>> {
    if v.contains_key(ns) {
        v[ns]
    } else {
        Map::<Seq<u8>, Seq<u8>>::empty()
    }
}

/// A namespace's contents after all seven fields of a record are written.
pub open spec fn record_ns_view(base: Map<Seq<u8>, Seq<u8>>, rec: AccountRecord) -> Map<
    Seq<u8>,
    Seq<u8>,
> {
    base.insert(k_username(), encode_utf8(rec.username@)).insert(
        k_uuid(),
        encode_utf8(rec.uuid@),
    ).insert(k_access(), encode_utf8(rec.access_token@)).insert(
        k_refresh(),
        encode_utf8(rec.refresh_token@),
    ).insert(k_expires(), encode_utf8(crate::decimal::dec_digits(rec.expires_in as nat))).insert(
        k_emited(),
        encode_utf8(rec.emited_at@),
    ).insert(k_provider(), encode_utf8(provider_tag(rec.provider)))
}

/// The index after a name is added: appended when absent, kept as is when
/// already listed (set semantics).
pub open spec fn added_names(names: Seq<Seq<char>>, name: Seq<char>) -> Seq<Seq<char>> {
    if names.contains(name) {
        names
    } else {
        names.push(name)
    }
}

/// The whole vault view after an account is added: its record namespace
/// rewritten, and the index entry rewritten with the name appended if
/// absent.
pub open spec fn added_view(
    v: Map<Seq<char>, Map<Seq<u8>, Seq<u8>>>,
    name: Seq<char>,
    rec: AccountRecord,
) -> Map<Seq<char>, Map<Seq<u8>, Seq<u8>>>
    recommends
        index_names(v) is Some,
{
    let v1 = v.insert(account_ns(name), record_ns_view(base_ns(v, account_ns(name)), rec));
    v1.insert(
        ns_meta_accounts(),
        base_ns(v1, ns_meta_accounts()).insert(
            k_accounts(),
            accounts_json_of(added_names(index_names(v).unwrap(), name)),
        ),
    )
}

/// Writes all seven fields of the record, appends the name to the index if
/// absent, and commits: one durability point for the whole addition.
pub fn add_account(
    state: &mut VaultState,
    disk: &mut BlobSlot,
    profile_name: &str,
    record: &AccountRecord,
) -> (r: Result<(), VaultError>)
    requires
        old(state).wf(),
    ensures
        final(state).wf(),
        match r {
            Ok(()) => {
                &&& !heal_fails(*old(state))
                &&& final(state).is_open()
                &&& final(state).ctx_view() == old(state).ctx_view()
                &&& index_names(healed_view(*old(state), old(disk)@)) is Some
                &&& final(state).open_view() == added_view(
                    healed_view(*old(state), old(disk)@),
                    profile_name@,
                    *record,
                )
                &&& index_names(final(state).open_view()) == Some(
                    added_names(
                        index_names(healed_view(*old(state), old(disk)@)).unwrap(),
                        profile_name@,
                    ),
                )
                &&& final(disk)@ is Some
                &&& spec_unseal(final(state).ctx_key(), final(disk)@.unwrap()) == Some(
                    final(state).open_model(),
                )
            },
            Err(e) => {
                &&& e == VaultError::NotInitialized ==> heal_fails(*old(state)) && *final(state)
                    == *old(state) && *final(disk) == *old(disk)
                &&& e == VaultError::EncodingError ==> !heal_fails(*old(state))
                    && final(state).is_open() && final(state).open_view() == healed_view(
                    *old(state),
                    old(disk)@,
                ) && final(disk)@ == healed_blob(*old(state), old(disk)@) && index_names(
                    healed_view(*old(state), old(disk)@),
                ) is None
                &&& e == VaultError::CryptoFailed ==> !heal_fails(*old(state))
                    && final(state).is_open() && index_names(healed_view(*old(state), old(disk)@))
                    is Some && final(state).open_view() == added_view(
                    healed_view(*old(state), old(disk)@),
                    profile_name@,
                    *record,
                ) && index_names(final(state).open_view()) == Some(
                    added_names(
                        index_names(healed_view(*old(state), old(disk)@)).unwrap(),
                        profile_name@,
                    ),
                ) && final(disk)@ == healed_blob(*old(state), old(disk)@)
                &&& (e == VaultError::NotInitialized || e == VaultError::EncodingError || e
                    == VaultError::CryptoFailed)
            },
        },
{
    let ghost vh = healed_view(*old(state), old(disk)@);
    let idx = match read_entry(state, disk, "metadata/accounts", ("accounts").as_bytes()) {
        Err(e) => {
            return Err(e);
        },
        Ok(v) => v,
    };
    let mut names: Vec<String> = match idx {
        None => Vec::new(),
        Some(b) => match decode_accounts(b.as_slice()) {
            None => {
                return Err(VaultError::EncodingError);
            },
            Some(v) => v,
        },
    };
    proof {
        if index_entry(vh) is None {
            assert(names_view(names@) =~= Seq::<Seq<char>>::empty());
        }
        assert(index_names(vh) == Some(names_view(names@)));
    }
    let ghost names0 = names_view(names@);
    let ns = account_ns_string(profile_name);
    let ghost nsv = account_ns(profile_name@);
    let ghost m1 = base_ns(vh, nsv).insert(k_username(), encode_utf8(record.username@));
    let ghost m2 = m1.insert(k_uuid(), encode_utf8(record.uuid@));
    let ghost m3 = m2.insert(k_access(), encode_utf8(record.access_token@));
    let ghost m4 = m3.insert(
        k_refresh(),
        encode_utf8(record.refresh_token@),
    );
    let ghost m5 = m4.insert(
        k_expires(),
        encode_utf8(crate::decimal::dec_digits(record.expires_in as nat)),
    );
    let ghost m6 = m5.insert(k_emited(), encode_utf8(record.emited_at@));
    let ghost m7 = m6.insert(k_provider(), encode_utf8(provider_tag(record.provider)));
    match write_entry(state, disk, ns.as_str(), ("username").as_bytes_vec(), record.username.as_str().as_bytes_vec()) {
        Err(e) => {
            return Err(e);
        },
        Ok(()) => {},
    }
    proof {
        assert(state.open_view() =~= vh.insert(nsv, m1));
    }
    match write_entry(state, disk, ns.as_str(), ("uuid").as_bytes_vec(), record.uuid.as_str().as_bytes_vec()) {
        Err(e) => {
            return Err(e);
        },
        Ok(()) => {},
    }
    proof {
        assert(state.open_view() =~= vh.insert(nsv, m2));
    }
    match write_entry(state, disk, ns.as_str(), ("access_token").as_bytes_vec(), record.access_token.as_str().as_bytes_vec()) {
        Err(e) => {
            return Err(e);
        },
        Ok(()) => {},
    }
    proof {
        assert(state.open_view() =~= vh.insert(nsv, m3));
    }
    match write_entry(state, disk, ns.as_str(), ("refresh_token").as_bytes_vec(), record.refresh_token.as_str().as_bytes_vec()) {
        Err(e) => {
            return Err(e);
        },
        Ok(()) => {},
    }
    proof {
        assert(state.open_view() =~= vh.insert(nsv, m4));
    }
    let expires_text = fmt_u64(record.expires_in);
    match write_entry(state, disk, ns.as_str(), ("expires_in").as_bytes_vec(), expires_text.as_str().as_bytes_vec()) {
        Err(e) => {
            return Err(e);
        },
        Ok(()) => {},
    }
    proof {
        assert(state.open_view() =~= vh.insert(nsv, m5));
    }
    match write_entry(state, disk, ns.as_str(), ("emited_at").as_bytes_vec(), record.emited_at.as_str().as_bytes_vec()) {
        Err(e) => {
            return Err(e);
        },
        Ok(()) => {},
    }
    proof {
        assert(state.open_view() =~= vh.insert(nsv, m6));
    }
    match write_entry(state, disk, ns.as_str(), ("provider").as_bytes_vec(), provider_tag_str(&record.provider).as_bytes_vec()) {
        Err(e) => {
            return Err(e);
        },
        Ok(()) => {},
    }
    proof {
        assert(state.open_view() =~= vh.insert(nsv, m7));
        assert(m7 == record_ns_view(base_ns(vh, nsv), *record));
    }
    if !names_contain(&names, profile_name) {
        let owned = profile_name.to_owned();
        names.push(owned);
        proof {
            assert(names_view(names@) =~= names0.push(profile_name@));
        }
    }
    proof {
        assert(names_view(names@) == added_names(names0, profile_name@));
    }
    let jb = encode_accounts(&names);
    match write_entry(state, disk, "metadata/accounts", ("accounts").as_bytes_vec(), jb) {
        Err(e) => {
            return Err(e);
        },
        Ok(()) => {},
    }
    proof {
        assert(state.open_view() =~= added_view(vh, profile_name@, *record));
        assert(index_entry(state.open_view()) == Some(jb@));
        assert(index_names(state.open_view()) == Some(added_names(names0, profile_name@)));
    }
    commit_snapshot(state, disk)
}

/// A namespace's contents after all seven fields of a record are removed.
pub open spec fn deleted_ns_view(base: Map<Seq<u8>, Seq<u8>>) -> Map<Seq<u8>, Seq<u8>> {
    base.remove(k_username()).remove(k_uuid()).remove(k_access()).remove(k_refresh()).remove(
        k_expires(),
    ).remove(k_emited()).remove(k_provider())
}

/// The whole vault view after an account is deleted: all seven fields
/// removed from its namespace (when it exists), and the name removed from
/// the index.
pub open spec fn deleted_view(
    v: Map<Seq<char>, Map<Seq<u8>, Seq<u8>>>,
    name: Seq<char>,
) -> Map<Seq<char>, Map<Seq<u8>, Seq<u8>>>
    recommends
        index_names(v) is Some,
{
    let v1 = if v.contains_key(account_ns(name)) {
        v.insert(account_ns(name), deleted_ns_view(v[account_ns(name)]))
    } else {
        v
    };
    v1.insert(
        ns_meta_accounts(),
        base_ns(v1, ns_meta_accounts()).insert(
            k_accounts(),
            accounts_json_of(remove_name(index_names(v).unwrap(), name)),
        ),
    )
}

/// Removes an account: deletes all seven fields of its namespace, removes
/// the name from the index, and commits.
pub fn del_account(state: &mut VaultState, disk: &mut BlobSlot, profile_name: &str) -> (r: Result<
    (),
    VaultError,
>)
    requires
        old(state).wf(),
    ensures
        final(state).wf(),
        match r {
            Ok(()) => {
                &&& !heal_fails(*old(state))
                &&& final(state).is_open()
                &&& final(state).ctx_view() == old(state).ctx_view()
                &&& index_names(healed_view(*old(state), old(disk)@)) is Some
                &&& final(state).open_view() == deleted_view(
                    healed_view(*old(state), old(disk)@),
                    profile_name@,
                )
                &&& index_names(final(state).open_view()) == Some(
                    remove_name(
                        index_names(healed_view(*old(state), old(disk)@)).unwrap(),
                        profile_name@,
                    ),
                )
                &&& final(disk)@ is Some
                &&& spec_unseal(final(state).ctx_key(), final(disk)@.unwrap()) == Some(
                    final(state).open_model(),
                )
            },
            Err(e) => {
                &&& e == VaultError::NotInitialized ==> heal_fails(*old(state)) && *final(state)
                    == *old(state) && *final(disk) == *old(disk)
                &&& e == VaultError::EncodingError ==> !heal_fails(*old(state))
                    && final(state).is_open() && final(state).open_view() == healed_view(
                    *old(state),
                    old(disk)@,
                ) && final(disk)@ == healed_blob(*old(state), old(disk)@) && index_names(
                    healed_view(*old(state), old(disk)@),
                ) is None
                &&& e == VaultError::CryptoFailed ==> !heal_fails(*old(state))
                    && final(state).is_open() && index_names(healed_view(*old(state), old(disk)@))
                    is Some && final(state).open_view() == deleted_view(
                    healed_view(*old(state), old(disk)@),
                    profile_name@,
                ) && index_names(final(state).open_view()) == Some(
                    remove_name(
                        index_names(healed_view(*old(state), old(disk)@)).unwrap(),
                        profile_name@,
                    ),
                ) && final(disk)@ == healed_blob(*old(state), old(disk)@)
                &&& (e == VaultError::NotInitialized || e == VaultError::EncodingError || e
                    == VaultError::CryptoFailed)
            },
        },
{
    let ghost vh = healed_view(*old(state), old(disk)@);
    let idx = match read_entry(state, disk, "metadata/accounts", ("accounts").as_bytes()) {
        Err(e) => {
            return Err(e);
        },
        Ok(v) => v,
    };
    let names: Vec<String> = match idx {
        None => Vec::new(),
        Some(b) => match decode_accounts(b.as_slice()) {
            None => {
                return Err(VaultError::EncodingError);
            },
            Some(v) => v,
        },
    };
    proof {
        if index_entry(vh) is None {
            assert(names_view(names@) =~= Seq::<Seq<char>>::empty());
        }
        assert(index_names(vh) == Some(names_view(names@)));
    }
    let ghost names0 = names_view(names@);
    let ns = account_ns_string(profile_name);
    let ghost nsv = account_ns(profile_name@);
    let ghost d1 = base_ns(vh, nsv).remove(k_username());
    let ghost d2 = d1.remove(k_uuid());
    let ghost d3 = d2.remove(k_access());
    let ghost d4 = d3.remove(k_refresh());
    let ghost d5 = d4.remove(k_expires());
    let ghost d6 = d5.remove(k_emited());
    let ghost d7 = d6.remove(k_provider());
    match delete_entry(state, disk, ns.as_str(), ("username").as_bytes()) {
        Err(e) => {
            return Err(e);
        },
        Ok(()) => {},
    }
    proof {
        if vh.contains_key(nsv) {
            assert(state.open_view() =~= vh.insert(nsv, d1));
        } else {
            assert(state.open_view() =~= vh);
        }
    }
    match delete_entry(state, disk, ns.as_str(), ("uuid").as_bytes()) {
        Err(e) => {
            return Err(e);
        },
        Ok(()) => {},
    }
    proof {
        if vh.contains_key(nsv) {
            assert(state.open_view() =~= vh.insert(nsv, d2));
        } else {
            assert(state.open_view() =~= vh);
        }
    }
    match delete_entry(state, disk, ns.as_str(), ("access_token").as_bytes()) {
        Err(e) => {
            return Err(e);
        },
        Ok(()) => {},
    }
    proof {
        if vh.contains_key(nsv) {
            assert(state.open_view() =~= vh.insert(nsv, d3));
        } else {
            assert(state.open_view() =~= vh);
        }
    }
    match delete_entry(state, disk, ns.as_str(), ("refresh_token").as_bytes()) {
        Err(e) => {
            return Err(e);
        },
        Ok(()) => {},
    }
    proof {
        if vh.contains_key(nsv) {
            assert(state.open_view() =~= vh.insert(nsv, d4));
        } else {
            assert(state.open_view() =~= vh);
        }
    }
    match delete_entry(state, disk, ns.as_str(), ("expires_in").as_bytes()) {
        Err(e) => {
            return Err(e);
        },
        Ok(()) => {},
    }
    proof {
        if vh.contains_key(nsv) {
            assert(state.open_view() =~= vh.insert(nsv, d5));
        } else {
            assert(state.open_view() =~= vh);
        }
    }
    match delete_entry(state, disk, ns.as_str(), ("emited_at").as_bytes()) {
        Err(e) => {
            return Err(e);
        },
        Ok(()) => {},
    }
    proof {
        if vh.contains_key(nsv) {
            assert(state.open_view() =~= vh.insert(nsv, d6));
        } else {
            assert(state.open_view() =~= vh);
        }
    }
    match delete_entry(state, disk, ns.as_str(), ("provider").as_bytes()) {
        Err(e) => {
            return Err(e);
        },
        Ok(()) => {},
    }
    proof {
        if vh.contains_key(nsv) {
            assert(state.open_view() =~= vh.insert(nsv, d7));
            assert(d7 == deleted_ns_view(vh[nsv]));
        } else {
            assert(state.open_view() =~= vh);
        }
    }
    let kept = names_without(&names, profile_name);
    let jb = encode_accounts(&kept);
    match write_entry(state, disk, "metadata/accounts", ("accounts").as_bytes_vec(), jb) {
        Err(e) => {
            return Err(e);
        },
        Ok(()) => {},
    }
    proof {
        assert(state.open_view() =~= deleted_view(vh, profile_name@));
        assert(index_entry(state.open_view()) == Some(jb@));
        assert(index_names(state.open_view()) == Some(remove_name(names0, profile_name@)));
    }
    commit_snapshot(state, disk)
}


/// The active-account pointer entry's bytes, if stored.
pub open spec fn pointer_entry(v: Map<Seq<char>, Map<Seq<u8>, Seq<u8>>>) -> Option<Seq<u8>> {
    entry_bytes(v, ns_meta_active(), k_active())
}

/// The stored pointer is not valid text.
pub open spec fn pointer_bad(v: Map<Seq<char>, Map<Seq<u8>, Seq<u8>>>) -> bool {
    match pointer_entry(v) {
        Some(b) => !valid_utf8(b),
        None => false,
    }
}

/// The name the pointer holds; empty when no pointer is stored.
pub open spec fn pointer_name(v: Map<Seq<char>, Map<Seq<u8>, Seq<u8>>>) -> Seq<char>
    recommends
        !pointer_bad(v),
{
    match pointer_entry(v) {
        Some(b) => decode_utf8(b),
        None => Seq::<char>::empty(),
    }
}

/// The profile the active-account operations act on: the pointer's name,
/// or the first entry of the index when no pointer is set; `None` when
/// there is no pointer and no account.
pub open spec fn active_target(v: Map<Seq<char>, Map<Seq<u8>, Seq<u8>>>) -> Option<Seq<char>>
    recommends
        !pointer_bad(v),
        pointer_name(v).len() == 0 ==> index_names(v) is Some,
{
    if pointer_name(v).len() > 0 {
        Some(pointer_name(v))
    } else if index_names(v).unwrap().len() > 0 {
        Some(index_names(v).unwrap()[0])
    } else {
        None
    }
}

/// Choosing the active profile fails: a pointer that is not text, or no
/// pointer and an index that does not decode.
pub open spec fn active_src_bad(v: Map<Seq<char>, Map<Seq<u8>, Seq<u8>>>) -> bool {
    pointer_bad(v) || (!pointer_bad(v) && pointer_name(v).len() == 0 && index_names(v) is None)
}

/// Reads the full record of the active account: the pointed-to profile,
/// or the first of the index when no pointer is set.  `Ok(None)` when
/// there is no account to use.
pub fn get_active_account(state: &mut VaultState, disk: &mut BlobSlot) -> (r: Result<
    Option<AccountRecord>,
    VaultError,
>)
    requires
        old(state).wf(),
    ensures
        final(state).wf(),
        match r {
            Ok(opt) => {
                &&& !heal_fails(*old(state))
                &&& final(state).is_open()
                &&& final(state).ctx_view() == old(state).ctx_view()
                &&& final(state).open_view() == healed_view(*old(state), old(disk)@)
                &&& final(disk)@ == healed_blob(*old(state), old(disk)@)
                &&& !active_src_bad(final(state).open_view())
                &&& match opt {
                    Some(rec) => active_target(final(state).open_view()) is Some && record_present(
                        final(state).open_view(),
                        active_target(final(state).open_view()).unwrap(),
                    ) && record_texts_ok(
                        final(state).open_view(),
                        active_target(final(state).open_view()).unwrap(),
                    ) && record_matches(
                        final(state).open_view(),
                        active_target(final(state).open_view()).unwrap(),
                        rec,
                    ),
                    None => active_target(final(state).open_view()) is None || !record_present(
                        final(state).open_view(),
                        active_target(final(state).open_view()).unwrap(),
                    ),
                }
            },
            Err(e) => {
                &&& e == VaultError::NotInitialized ==> heal_fails(*old(state)) && *final(state)
                    == *old(state) && *final(disk) == *old(disk)
                &&& e == VaultError::EncodingError ==> !heal_fails(*old(state))
                    && final(state).is_open() && final(state).open_view() == healed_view(
                    *old(state),
                    old(disk)@,
                ) && final(disk)@ == healed_blob(*old(state), old(disk)@) && (active_src_bad(
                    final(state).open_view(),
                ) || (active_target(
                    final(state).open_view(),
                ) is Some && record_present(
                    final(state).open_view(),
                    active_target(final(state).open_view()).unwrap(),
                ) && !record_texts_ok(
                    final(state).open_view(),
                    active_target(final(state).open_view()).unwrap(),
                )))
                &&& (e == VaultError::NotInitialized || e == VaultError::EncodingError)
            },
        },
{
    let ptr = match read_entry(state, disk, "metadata/active_account", ("active_account").as_bytes()) {
        Err(e) => {
            return Err(e);
        },
        Ok(v) => v,
    };
    let target: String = match ptr {
        Some(b) => match bytes_to_string(b) {
            None => {
                return Err(VaultError::EncodingError);
            },
            Some(s) => s,
        },
        None => String::new(),
    };
    if !target.as_str().is_empty() {
        get_account(state, disk, target.as_str())
    } else {
        let names = match list_accounts(state) {
            Err(e) => {
                return Err(e);
            },
            Ok(v) => v,
        };
        if names.len() == 0 {
            return Ok(None);
        }
        let first = names[0].clone();
        get_account(state, disk, first.as_str())
    }
}

/// Reads the display part of the active account, with the same choice of
/// profile as the full read.
pub fn display_active_account(state: &mut VaultState, disk: &mut BlobSlot) -> (r: Result<
    Option<UserProfilePartial>,
    VaultError,
>)
    requires
        old(state).wf(),
    ensures
        final(state).wf(),
        match r {
            Ok(opt) => {
                &&& !heal_fails(*old(state))
                &&& final(state).is_open()
                &&& final(state).ctx_view() == old(state).ctx_view()
                &&& final(state).open_view() == healed_view(*old(state), old(disk)@)
                &&& final(disk)@ == healed_blob(*old(state), old(disk)@)
                &&& !active_src_bad(final(state).open_view())
                &&& match opt {
                    Some(p) => active_target(final(state).open_view()) is Some && display_present(
                        final(state).open_view(),
                        active_target(final(state).open_view()).unwrap(),
                    ) && display_ok(
                        final(state).open_view(),
                        active_target(final(state).open_view()).unwrap(),
                    ) && p.username@ == field_text(
                        final(state).open_view(),
                        active_target(final(state).open_view()).unwrap(),
                        k_username(),
                    ) && p.uuid@ == field_text(
                        final(state).open_view(),
                        active_target(final(state).open_view()).unwrap(),
                        k_uuid(),
                    ),
                    None => active_target(final(state).open_view()) is None || !display_present(
                        final(state).open_view(),
                        active_target(final(state).open_view()).unwrap(),
                    ),
                }
            },
            Err(e) => {
                &&& e == VaultError::NotInitialized ==> heal_fails(*old(state)) && *final(state)
                    == *old(state) && *final(disk) == *old(disk)
                &&& e == VaultError::EncodingError ==> !heal_fails(*old(state))
                    && final(state).is_open() && final(state).open_view() == healed_view(
                    *old(state),
                    old(disk)@,
                ) && final(disk)@ == healed_blob(*old(state), old(disk)@) && (active_src_bad(
                    final(state).open_view(),
                ) || (active_target(final(state).open_view()) is Some && display_present(
                    final(state).open_view(),
                    active_target(final(state).open_view()).unwrap(),
                ) && !display_ok(
                    final(state).open_view(),
                    active_target(final(state).open_view()).unwrap(),
                )))
                &&& (e == VaultError::NotInitialized || e == VaultError::EncodingError)
            },
        },
{
    let ptr = match read_entry(state, disk, "metadata/active_account", ("active_account").as_bytes()) {
        Err(e) => {
            return Err(e);
        },
        Ok(v) => v,
    };
    let target: String = match ptr {
        Some(b) => match bytes_to_string(b) {
            None => {
                return Err(VaultError::EncodingError);
            },
            Some(s) => s,
        },
        None => String::new(),
    };
    if !target.as_str().is_empty() {
        display_account(state, disk, target.as_str())
    } else {
        let names = match list_accounts(state) {
            Err(e) => {
                return Err(e);
            },
            Ok(v) => v,
        };
        if names.len() == 0 {
            return Ok(None);
        }
        let first = names[0].clone();
        display_account(state, disk, first.as_str())
    }
}

} // verus!
