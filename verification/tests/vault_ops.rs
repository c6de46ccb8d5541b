use credvault::accounts::{
    add_account, del_account, display_account, display_active_account, get_account,
    get_active_account, list_accounts, switch_active_account, AccountRecord, Provider,
};
use credvault::errors::VaultError;
use credvault::vault::{
    commit_snapshot, init_vault_if_needed, read_entry, write_entry, BlobSlot, VaultState,
};

const PASSWORD: &str = "test-vault-password";

fn salt() -> Vec<u8> {
    vec![7u8; 16]
}

fn open_fresh() -> (VaultState, BlobSlot) {
    let mut state = VaultState::new();
    let mut disk = BlobSlot::empty();
    init_vault_if_needed(&mut state, &mut disk, PASSWORD, &salt()).unwrap();
    (state, disk)
}

fn record(username: &str, provider: Provider) -> AccountRecord {
    AccountRecord {
        username: username.to_string(),
        uuid: format!("uuid-of-{}", username),
        access_token: format!("access-{}", username),
        refresh_token: format!("refresh-{}", username),
        expires_in: 3600,
        emited_at: "2024-01-02 03:04:05 UTC".to_string(),
        provider,
    }
}

#[test]
fn init_creates_empty_vault() {
    let (state, disk) = open_fresh();
    assert!(disk.contents.is_none());
    let names = list_accounts(&state).unwrap();
    assert!(names.is_empty());
}

#[test]
fn add_get_round_trip() {
    let (mut state, mut disk) = open_fresh();
    let rec = record("alice", Provider::Microsoft);
    add_account(&mut state, &mut disk, "alice", &rec).unwrap();
    let got = get_account(&mut state, &mut disk, "alice").unwrap().unwrap();
    assert_eq!(got.username, "alice");
    assert_eq!(got.uuid, "uuid-of-alice");
    assert_eq!(got.access_token, "access-alice");
    assert_eq!(got.refresh_token, "refresh-alice");
    assert_eq!(got.expires_in, 3600);
    assert_eq!(got.emited_at, "2024-01-02 03:04:05 UTC");
    assert_eq!(got.provider, Provider::Microsoft);
}

#[test]
fn add_get_round_trip_offline() {
    let (mut state, mut disk) = open_fresh();
    let rec = record("bob", Provider::Offline);
    add_account(&mut state, &mut disk, "bob", &rec).unwrap();
    let got = get_account(&mut state, &mut disk, "bob").unwrap().unwrap();
    assert_eq!(got.provider, Provider::Offline);
    assert_eq!(got.username, "bob");
}

#[test]
fn get_unknown_profile_is_absent() {
    let (mut state, mut disk) = open_fresh();
    let got = get_account(&mut state, &mut disk, "nobody").unwrap();
    assert!(got.is_none());
}

#[test]
fn add_twice_lists_once() {
    let (mut state, mut disk) = open_fresh();
    let rec = record("alice", Provider::Offline);
    add_account(&mut state, &mut disk, "alice", &rec).unwrap();
    add_account(&mut state, &mut disk, "alice", &rec).unwrap();
    let names = list_accounts(&state).unwrap();
    assert_eq!(names.len(), 1);
    assert_eq!(names[0], "alice");
}

#[test]
fn delete_removes_from_index() {
    let (mut state, mut disk) = open_fresh();
    add_account(&mut state, &mut disk, "alice", &record("alice", Provider::Offline)).unwrap();
    add_account(&mut state, &mut disk, "bob", &record("bob", Provider::Offline)).unwrap();
    del_account(&mut state, &mut disk, "alice").unwrap();
    let names = list_accounts(&state).unwrap();
    assert_eq!(names.len(), 1);
    assert_eq!(names[0], "bob");
    assert!(get_account(&mut state, &mut disk, "alice").unwrap().is_none());
    assert!(get_account(&mut state, &mut disk, "bob").unwrap().is_some());
}

#[test]
fn partial_record_reads_absent() {
    let (mut state, mut disk) = open_fresh();
    write_entry(
        &mut state,
        &mut disk,
        "minecraft/carl",
        b"username".to_vec(),
        b"carl".to_vec(),
    )
    .unwrap();
    write_entry(
        &mut state,
        &mut disk,
        "minecraft/carl",
        b"uuid".to_vec(),
        b"uuid-of-carl".to_vec(),
    )
    .unwrap();
    let got = get_account(&mut state, &mut disk, "carl").unwrap();
    assert!(got.is_none());
    let shown = display_account(&mut state, &mut disk, "carl").unwrap().unwrap();
    assert_eq!(shown.username, "carl");
    assert_eq!(shown.uuid, "uuid-of-carl");
}

#[test]
fn corruption_recovery_garbage_blob() {
    let mut state = VaultState::new();
    let mut disk = BlobSlot { contents: Some(vec![1u8, 2, 3]) };
    init_vault_if_needed(&mut state, &mut disk, PASSWORD, &salt()).unwrap();
    assert!(disk.contents.is_none());
    let names = list_accounts(&state).unwrap();
    assert!(names.is_empty());
}

#[test]
fn corruption_recovery_tampered_blob() {
    let (mut state, mut disk) = open_fresh();
    add_account(&mut state, &mut disk, "alice", &record("alice", Provider::Offline)).unwrap();
    let mut blob = disk.contents.clone().unwrap();
    let last = blob.len() - 1;
    blob[last] ^= 0xff;
    let mut state2 = VaultState::new();
    let mut disk2 = BlobSlot { contents: Some(blob) };
    init_vault_if_needed(&mut state2, &mut disk2, PASSWORD, &salt()).unwrap();
    assert!(disk2.contents.is_none());
    assert!(list_accounts(&state2).unwrap().is_empty());
}

#[test]
fn wrong_password_repairs_to_empty() {
    let (mut state, mut disk) = open_fresh();
    add_account(&mut state, &mut disk, "alice", &record("alice", Provider::Offline)).unwrap();
    let mut state2 = VaultState::new();
    let mut disk2 = BlobSlot { contents: disk.contents.clone() };
    init_vault_if_needed(&mut state2, &mut disk2, "another-password", &salt()).unwrap();
    assert!(disk2.contents.is_none());
    assert!(list_accounts(&state2).unwrap().is_empty());
}

#[test]
fn commit_and_reopen_restores_accounts() {
    let (mut state, mut disk) = open_fresh();
    add_account(&mut state, &mut disk, "alice", &record("alice", Provider::Microsoft)).unwrap();
    add_account(&mut state, &mut disk, "bob", &record("bob", Provider::Offline)).unwrap();
    let mut state2 = VaultState::new();
    let mut disk2 = BlobSlot { contents: disk.contents.clone() };
    init_vault_if_needed(&mut state2, &mut disk2, PASSWORD, &salt()).unwrap();
    let names = list_accounts(&state2).unwrap();
    assert_eq!(names.len(), 2);
    assert_eq!(names[0], "alice");
    assert_eq!(names[1], "bob");
    let got = get_account(&mut state2, &mut disk2, "alice").unwrap().unwrap();
    assert_eq!(got.username, "alice");
    assert_eq!(got.provider, Provider::Microsoft);
}

#[test]
fn active_pointer_defaults_to_first() {
    let (mut state, mut disk) = open_fresh();
    add_account(&mut state, &mut disk, "a", &record("a", Provider::Offline)).unwrap();
    add_account(&mut state, &mut disk, "b", &record("b", Provider::Offline)).unwrap();
    let got = get_active_account(&mut state, &mut disk).unwrap().unwrap();
    assert_eq!(got.username, "a");
    let shown = display_active_account(&mut state, &mut disk).unwrap().unwrap();
    assert_eq!(shown.username, "a");
}

#[test]
fn active_pointer_follows_switch() {
    let (mut state, mut disk) = open_fresh();
    add_account(&mut state, &mut disk, "a", &record("a", Provider::Offline)).unwrap();
    add_account(&mut state, &mut disk, "b", &record("b", Provider::Offline)).unwrap();
    switch_active_account(&mut state, &mut disk, "b").unwrap();
    let got = get_active_account(&mut state, &mut disk).unwrap().unwrap();
    assert_eq!(got.username, "b");
}

#[test]
fn active_with_no_accounts_is_absent() {
    let (mut state, mut disk) = open_fresh();
    assert!(get_active_account(&mut state, &mut disk).unwrap().is_none());
    assert!(display_active_account(&mut state, &mut disk).unwrap().is_none());
}

#[test]
fn serialized_adds_all_listed() {
    let (mut state, mut disk) = open_fresh();
    let all = ["a", "b", "c", "d", "e"];
    for name in all.iter() {
        add_account(&mut state, &mut disk, name, &record(name, Provider::Offline)).unwrap();
    }
    let names = list_accounts(&state).unwrap();
    assert_eq!(names.len(), all.len());
    for name in all.iter() {
        assert!(names.iter().any(|n| n == name));
    }
}

#[test]
fn not_initialized_errors() {
    let mut state = VaultState::new();
    let mut disk = BlobSlot::empty();
    assert_eq!(
        get_account(&mut state, &mut disk, "alice").unwrap_err(),
        VaultError::NotInitialized
    );
    assert_eq!(commit_snapshot(&state, &mut disk).unwrap_err(), VaultError::NotInitialized);
    assert!(list_accounts(&state).unwrap().is_empty());
}

#[test]
fn self_heal_reopens_from_context() {
    let (mut state, mut disk) = open_fresh();
    add_account(&mut state, &mut disk, "alice", &record("alice", Provider::Offline)).unwrap();
    // Some code path dropped the open handle; the remembered context heals it.
    state.snapshot = None;
    let got = get_account(&mut state, &mut disk, "alice").unwrap().unwrap();
    assert_eq!(got.username, "alice");
}

#[test]
fn bad_index_is_encoding_error() {
    let (mut state, mut disk) = open_fresh();
    write_entry(
        &mut state,
        &mut disk,
        "metadata/accounts",
        b"accounts".to_vec(),
        vec![0xffu8, 0x00],
    )
    .unwrap();
    assert_eq!(list_accounts(&state).unwrap_err(), VaultError::EncodingError);
    assert_eq!(
        add_account(&mut state, &mut disk, "x", &record("x", Provider::Offline)).unwrap_err(),
        VaultError::EncodingError
    );
    assert_eq!(del_account(&mut state, &mut disk, "x").unwrap_err(), VaultError::EncodingError);
}

#[test]
fn bad_field_text_is_encoding_error() {
    let (mut state, mut disk) = open_fresh();
    add_account(&mut state, &mut disk, "alice", &record("alice", Provider::Offline)).unwrap();
    write_entry(
        &mut state,
        &mut disk,
        "minecraft/alice",
        b"username".to_vec(),
        vec![0xffu8, 0xfe],
    )
    .unwrap();
    assert_eq!(
        get_account(&mut state, &mut disk, "alice").unwrap_err(),
        VaultError::EncodingError
    );
}

#[test]
fn unknown_provider_tag_reads_offline() {
    let (mut state, mut disk) = open_fresh();
    add_account(&mut state, &mut disk, "alice", &record("alice", Provider::Offline)).unwrap();
    write_entry(
        &mut state,
        &mut disk,
        "minecraft/alice",
        b"provider".to_vec(),
        b"something-else".to_vec(),
    )
    .unwrap();
    let got = get_account(&mut state, &mut disk, "alice").unwrap().unwrap();
    assert_eq!(got.provider, Provider::Offline);
}

#[test]
fn non_numeric_expiry_reads_zero() {
    let (mut state, mut disk) = open_fresh();
    add_account(&mut state, &mut disk, "alice", &record("alice", Provider::Offline)).unwrap();
    write_entry(
        &mut state,
        &mut disk,
        "minecraft/alice",
        b"expires_in".to_vec(),
        b"not-a-number".to_vec(),
    )
    .unwrap();
    let got = get_account(&mut state, &mut disk, "alice").unwrap().unwrap();
    assert_eq!(got.expires_in, 0);
}

#[test]
fn entries_survive_in_memory_without_commit() {
    let (mut state, mut disk) = open_fresh();
    write_entry(&mut state, &mut disk, "scratch", b"k".to_vec(), b"v".to_vec()).unwrap();
    let got = read_entry(&mut state, &mut disk, "scratch", b"k").unwrap().unwrap();
    assert_eq!(got, b"v".to_vec());
    // No commit happened: the blob file still does not exist.
    assert!(disk.contents.is_none());
}

#[test]
fn two_commits_use_fresh_nonces() {
    let (mut state, mut disk) = open_fresh();
    write_entry(&mut state, &mut disk, "scratch", b"k".to_vec(), b"v".to_vec()).unwrap();
    commit_snapshot(&state, &mut disk).unwrap();
    let first = disk.contents.clone().unwrap();
    commit_snapshot(&state, &mut disk).unwrap();
    let second = disk.contents.clone().unwrap();
    assert!(first.len() > 24);
    assert_eq!(first.len(), second.len());
    assert_ne!(first, second);
}

#[test]
fn pointer_to_deleted_account_reads_absent() {
    let (mut state, mut disk) = open_fresh();
    add_account(&mut state, &mut disk, "a", &record("a", Provider::Offline)).unwrap();
    add_account(&mut state, &mut disk, "b", &record("b", Provider::Offline)).unwrap();
    switch_active_account(&mut state, &mut disk, "b").unwrap();
    del_account(&mut state, &mut disk, "b").unwrap();
    // The pointer still names "b", whose record fields are gone.
    assert!(get_active_account(&mut state, &mut disk).unwrap().is_none());
}

#[test]
fn delete_then_readd() {
    let (mut state, mut disk) = open_fresh();
    add_account(&mut state, &mut disk, "a", &record("a", Provider::Offline)).unwrap();
    del_account(&mut state, &mut disk, "a").unwrap();
    add_account(&mut state, &mut disk, "a", &record("a", Provider::Microsoft)).unwrap();
    let names = list_accounts(&state).unwrap();
    assert_eq!(names.len(), 1);
    let got = get_account(&mut state, &mut disk, "a").unwrap().unwrap();
    assert_eq!(got.provider, Provider::Microsoft);
}

#[test]
fn switch_persists_across_reopen() {
    let (mut state, mut disk) = open_fresh();
    add_account(&mut state, &mut disk, "a", &record("a", Provider::Offline)).unwrap();
    add_account(&mut state, &mut disk, "b", &record("b", Provider::Offline)).unwrap();
    switch_active_account(&mut state, &mut disk, "b").unwrap();
    let mut state2 = VaultState::new();
    let mut disk2 = BlobSlot { contents: disk.contents.clone() };
    init_vault_if_needed(&mut state2, &mut disk2, PASSWORD, &salt()).unwrap();
    let got = get_active_account(&mut state2, &mut disk2).unwrap().unwrap();
    assert_eq!(got.username, "b");
}

#[test]
fn display_unknown_profile_is_absent() {
    let (mut state, mut disk) = open_fresh();
    assert!(display_account(&mut state, &mut disk, "nobody").unwrap().is_none());
}

#[test]
fn bad_pointer_text_is_encoding_error() {
    let (mut state, mut disk) = open_fresh();
    add_account(&mut state, &mut disk, "a", &record("a", Provider::Offline)).unwrap();
    write_entry(
        &mut state,
        &mut disk,
        "metadata/active_account",
        b"active_account".to_vec(),
        vec![0xffu8],
    )
    .unwrap();
    assert_eq!(
        get_active_account(&mut state, &mut disk).unwrap_err(),
        VaultError::EncodingError
    );
}
