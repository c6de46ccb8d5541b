//! The vault manager: owns the decrypted in-memory snapshot, opens or
//! creates it, repairs a corrupted blob, and commits the snapshot.
//!
//! The on-disk blob is modelled by [`BlobSlot`], a value holding the file's
//! bytes: `None` means the file does not exist.  The embedding application
//! reads the real file into a slot before calling in and writes the slot
//! back out afterwards (atomically, via a temporary file and a rename).
//! Corruption auto-repair is deliberate last-resort policy: a blob that does
//! not unseal is discarded and the vault reopens empty.
//!
//! A `&mut VaultState` is the vault's exclusive region: operations on it are
//! serialized by ownership.  An embedding with concurrent tasks wraps the
//! manager in a mutual-exclusion lock, holds the lock only for these
//! in-memory operations, and never across a network call or another
//! long-latency suspension point.
use vstd::prelude::*;

use crate::codec::{
    bounded_model, lemma_parse_ser, lemma_wf_is_model_distinct, parse_snapshot,
    serialize_snapshot, spec_parse, spec_ser,
};
use crate::crypto::{
    aead_open, aead_seal, derive_key, derived_key_of, opened_of, random_bytes, KEY_LEN, NONCE_LEN,
    SEAL_MAX,
};
use crate::errors::VaultError;
use crate::snapshot::{lemma_view_of_model, view_of_model, Snapshot};
use vstd::slice::{slice_subrange, slice_to_vec};
use vstd::string::StringSliceAdditionalSpecFns;
use vstd::utf8::encode_utf8;

verus! {

/// The bytes of the vault's blob file; `None` when the file does not exist.
pub struct BlobSlot {
    pub contents: Option<Vec<u8>>,
}

impl View for BlobSlot {
    type V = Option<Seq<u8>>;

    open spec fn view(&self) -> Option<Seq<u8>> {
        match self.contents {
            Some(b) => Some(b@),
            None => None,
        }
    }
}

impl BlobSlot {
    /// A slot for a file that does not exist.
    pub fn empty() -> (r: BlobSlot)
        ensures
            r@ is None,
    {
        BlobSlot { contents: None }
    }
}

/// The remembered context of the last successful open: the password, the
/// salt, and the key derived from them.
pub struct VaultCtx {
    pub password: String,
    pub salt: Vec<u8>,
    pub key: Vec<u8>,
}

impl VaultCtx {
    /// The stored key really is the one derived from password and salt.
    pub open spec fn wf(&self) -> bool {
        &&& self.key@ == derived_key_of(encode_utf8(self.password@), self.salt@)
        &&& self.key@.len() == KEY_LEN
    }
}

/// The vault manager.  Closed until first opened; once open it holds the
/// decrypted snapshot and the remembered context, with which it can
/// transparently reopen (self-heal) if some code path closed the handle.
pub struct VaultState {
    pub snapshot: Option<Snapshot>,
    pub ctx: Option<VaultCtx>,
}

/// A model of a freshly repaired or created vault: no namespaces.
pub open spec fn empty_model() -> Seq<(Seq<char>, Seq<(Seq<u8>, Seq<u8>)>)> {
    Seq::<(Seq<char>, Seq<(Seq<u8>, Seq<u8>)>)>::empty()
}

/// What unsealing a blob with a key yields: the snapshot model, or `None`
/// when the blob is too short, inauthentic, or not a well-formed snapshot.
pub open spec fn spec_unseal(key: Seq<u8>, blob: Seq<u8>) -> Option<
    Seq<(Seq<char>, Seq<(Seq<u8>, Seq<u8>)>)>,
> {
    if blob.len() < NONCE_LEN {
        None
    } else {
        match opened_of(
            key,
            blob.subrange(0, NONCE_LEN as int),
            blob.subrange(NONCE_LEN as int, blob.len() as int),
        ) {
            None => None,
            Some(p) => spec_parse(p),
        }
    }
}

/// The outcome of opening with a key against a blob: the in-memory model,
/// and what is left of the blob (`None` after a repair deleted it).
pub open spec fn spec_open_result(key: Seq<u8>, blob: Option<Seq<u8>>) -> (
    Seq<(Seq<char>, Seq<(Seq<u8>, Seq<u8>)>)>,
    Option<Seq<u8>>,
) {
    match blob {
        None => (empty_model(), None),
        Some(b) => match spec_unseal(key, b) {
            Some(m) => (m, Some(b)),
            None => (empty_model(), None),
        },
    }
}

impl VaultState {
    /// Well-formed: an open snapshot is well-formed, a remembered context
    /// holds the derived key, and an open vault always has a context.
    pub open spec fn wf(&self) -> bool {
        &&& (self.snapshot matches Some(s) ==> s.wf())
        &&& (self.ctx matches Some(c) ==> c.wf())
        &&& (self.snapshot is Some ==> self.ctx is Some)
    }

    /// Open: a decrypted snapshot is resident.
    pub open spec fn is_open(&self) -> bool {
        self.snapshot is Some
    }

    /// The raw model of the open snapshot.
    pub open spec fn open_model(&self) -> Seq<(Seq<char>, Seq<(Seq<u8>, Seq<u8>)>)>
        recommends
            self.is_open(),
    {
        self.snapshot.unwrap().model()
    }

    /// The open snapshot as a map of namespaces.
    pub open spec fn open_view(&self) -> Map<Seq<char>, Map<Seq<u8>, Seq<u8>>>
        recommends
            self.is_open(),
    {
        self.snapshot.unwrap()@
    }

    /// The remembered context, as plain values.
    pub open spec fn ctx_view(&self) -> Option<(Seq<char>, Seq<u8>, Seq<u8>)> {
        match self.ctx {
            Some(c) => Some((c.password@, c.salt@, c.key@)),
            None => None,
        }
    }

    /// The remembered key.
    pub open spec fn ctx_key(&self) -> Seq<u8>
        recommends
            self.ctx is Some,
    {
        self.ctx.unwrap().key@
    }

    /// A closed vault with no remembered context.
    pub fn new() -> (r: VaultState)
        ensures
            r.wf(),
            !r.is_open(),
            r.ctx is None,
    {
        VaultState { snapshot: None, ctx: None }
    }
}

impl Default for VaultState {
    /// A closed vault with no remembered context.
    fn default() -> (r: VaultState)
        ensures
            r.wf(),
            !r.is_open(),
            r.ctx is None,
    {
        VaultState { snapshot: None, ctx: None }
    }
}

/// Self-healing fails only here: never opened and nothing remembered.
pub open spec fn heal_fails(s: VaultState) -> bool {
    !s.is_open() && s.ctx is None
}

/// The in-memory model after an operation made sure the vault is open.
pub open spec fn healed_model(s: VaultState, blob: Option<Seq<u8>>) -> Seq<
    (Seq<char>, Seq<(Seq<u8>, Seq<u8>)>),
>
    recommends
        !heal_fails(s),
{
    if s.is_open() {
        s.open_model()
    } else {
        spec_open_result(s.ctx_key(), blob).0
    }
}

/// The blob after an operation made sure the vault is open.
pub open spec fn healed_blob(s: VaultState, blob: Option<Seq<u8>>) -> Option<Seq<u8>>
    recommends
        !heal_fails(s),
{
    if s.is_open() {
        blob
    } else {
        spec_open_result(s.ctx_key(), blob).1
    }
}

/// The namespace map after an operation made sure the vault is open.
pub open spec fn healed_view(s: VaultState, blob: Option<Seq<u8>>) -> Map<
    Seq<char>,
    Map<Seq<u8>, Seq<u8>>,
> {
    if s.is_open() {
        s.open_view()
    } else {
        view_of_model(spec_open_result(s.ctx_key(), blob).0)
    }
}

/// Unseals and parses a blob with the given key.
fn try_unseal(key: &[u8], blob: &Vec<u8>) -> (r: Option<Snapshot>)
    requires
        key@.len() == KEY_LEN,
    ensures
        match r {
            Some(s) => spec_unseal(key@, blob@) == Some(s.model()) && s.wf(),
            None => spec_unseal(key@, blob@) is None,
        },
{
    if blob.len() < NONCE_LEN {
        return None;
    }
    let nonce = slice_subrange(blob.as_slice(), 0, NONCE_LEN);
    let ct = slice_subrange(blob.as_slice(), NONCE_LEN, blob.len());
    proof {
        assert(nonce@ =~= blob@.subrange(0, NONCE_LEN as int));
        assert(ct@ =~= blob@.subrange(NONCE_LEN as int, blob@.len() as int));
    }
    match aead_open(key, nonce, ct) {
        None => None,
        Some(plain) => parse_snapshot(plain.as_slice()),
    }
}

/// Opens the vault with an already-derived key, repairing a blob that does
/// not unseal by discarding it; remembers the context.  This never fails:
/// a missing blob means a fresh empty vault, an unreadable one is deleted
/// and replaced by a fresh empty vault.
pub fn open_with_key(
    state: &mut VaultState,
    disk: &mut BlobSlot,
    password: &str,
    salt: &[u8],
    key: Vec<u8>,
)
    requires
        old(state).wf(),
        !old(state).is_open(),
        key@.len() == KEY_LEN,
        key@ == derived_key_of(encode_utf8(password@), salt@),
    ensures
        final(state).wf(),
        final(state).is_open(),
        final(state).ctx_view() == Some((password@, salt@, key@)),
        final(state).open_model() == spec_open_result(key@, old(disk)@).0,
        final(disk)@ == spec_open_result(key@, old(disk)@).1,
{
    let ghost key_v = key@;
    let opened: Option<Snapshot> = match &disk.contents {
        None => None,
        Some(b) => try_unseal(key.as_slice(), b),
    };
    let ctx = VaultCtx { password: password.to_owned(), salt: slice_to_vec(salt), key };
    match opened {
        Some(snap) => {
            state.snapshot = Some(snap);
            state.ctx = Some(ctx);
        },
        None => {
            // Repair: discard an unreadable blob and start empty.
            disk.contents = None;
            state.snapshot = Some(Snapshot::new());
            state.ctx = Some(ctx);
        },
    }
}

/// No-op if the vault is already open; otherwise derives the key from the
/// password and salt and opens or creates the snapshot, repairing a
/// corrupted blob by discarding it.  Fails only when key derivation does.
pub fn init_vault_if_needed(
    state: &mut VaultState,
    disk: &mut BlobSlot,
    password: &str,
    salt: &[u8],
) -> (r: Result<(), VaultError>)
    requires
        old(state).wf(),
    ensures
        final(state).wf(),
        old(state).is_open() ==> r is Ok && *final(state) == *old(state) && *final(disk) == *old(disk),
        !old(state).is_open() ==> match r {
            Ok(()) => {
                &&& final(state).is_open()
                &&& final(state).ctx_view() == Some(
                    (password@, salt@, derived_key_of(encode_utf8(password@), salt@)),
                )
                &&& final(state).open_model() == spec_open_result(
                    derived_key_of(encode_utf8(password@), salt@),
                    old(disk)@,
                ).0
                &&& final(disk)@ == spec_open_result(
                    derived_key_of(encode_utf8(password@), salt@),
                    old(disk)@,
                ).1
            },
            Err(e) => e == VaultError::KeyDerivationFailed && *final(state) == *old(state)
                && *final(disk) == *old(disk),
        },
        !old(state).is_open() && salt@.len() < 8 ==> r is Err,
{
    if state.snapshot.is_some() {
        return Ok(());
    }
    match derive_key(password.as_bytes(), salt) {
        None => Err(VaultError::KeyDerivationFailed),
        Some(key) => {
            open_with_key(state, disk, password, salt, key);
            Ok(())
        },
    }
}

/// Makes sure the vault is open, transparently reopening from the
/// remembered context when some code path closed the handle.  Fails with
/// `NotInitialized` exactly when the vault was never opened and no context
/// is remembered.
pub fn ensure_ready(state: &mut VaultState, disk: &mut BlobSlot) -> (r: Result<(), VaultError>)
    requires
        old(state).wf(),
    ensures
        final(state).wf(),
        match r {
            Ok(()) => {
                &&& !heal_fails(*old(state))
                &&& final(state).is_open()
                &&& final(state).ctx_view() == old(state).ctx_view()
                &&& final(state).open_model() == healed_model(*old(state), old(disk)@)
                &&& final(state).open_view() == healed_view(*old(state), old(disk)@)
                &&& final(disk)@ == healed_blob(*old(state), old(disk)@)
            },
            Err(e) => e == VaultError::NotInitialized && heal_fails(*old(state)) && *final(state)
                == *old(state) && *final(disk) == *old(disk),
        },
{
    if state.snapshot.is_some() {
        return Ok(());
    }
    let (password, salt, key) = match &state.ctx {
        None => {
            return Err(VaultError::NotInitialized);
        },
        Some(c) => (c.password.clone(), c.salt.clone(), c.key.clone()),
    };
    open_with_key(state, disk, password.as_str(), salt.as_slice(), key);
    proof {
        lemma_view_of_model(&state.snapshot.unwrap());
    }
    Ok(())
}

/// Serializes and seals the open snapshot under the given nonce and puts
/// the sealed blob in the slot.  Succeeds exactly when the vault is open,
/// the nonce has the cipher's nonce length, and the serialized snapshot is
/// within the cipher's length limit; on success the new blob unseals to
/// the very snapshot that was committed.
pub fn commit_with_nonce(state: &VaultState, disk: &mut BlobSlot, nonce: Vec<u8>) -> (r: Result<
    (),
    VaultError,
>)
    requires
        state.wf(),
    ensures
        r is Ok <==> state.is_open() && nonce@.len() == NONCE_LEN && spec_ser(
            state.open_model(),
        ).len() < SEAL_MAX,
        match r {
            Ok(()) => {
                &&& final(disk)@ is Some
                &&& spec_unseal(state.ctx_key(), final(disk)@.unwrap()) == Some(state.open_model())
            },
            Err(e) => {
                &&& *final(disk) == *old(disk)
                &&& (e == VaultError::NotInitialized <==> !state.is_open())
                &&& (state.is_open() ==> e == VaultError::CryptoFailed)
            },
        },
{
    let snap = match &state.snapshot {
        None => {
            return Err(VaultError::NotInitialized);
        },
        Some(s) => s,
    };
    if nonce.len() != NONCE_LEN {
        return Err(VaultError::CryptoFailed);
    }
    let bytes = serialize_snapshot(snap);
    if bytes.len() as u64 >= SEAL_MAX {
        return Err(VaultError::CryptoFailed);
    }
    let key = match &state.ctx {
        None => {
            return Err(VaultError::CryptoFailed);
        },
        Some(c) => &c.key,
    };
    match aead_seal(key.as_slice(), nonce.as_slice(), bytes.as_slice()) {
        None => Err(VaultError::CryptoFailed),
        Some(sealed) => {
            let ghost nonce_v = nonce@;
            let ghost sealed_v = sealed@;
            let mut blob = nonce;
            crate::codec::push_bytes(&mut blob, sealed.as_slice());
            proof {
                let bv = nonce_v + sealed_v;
                assert(blob@ == bv);
                assert(bv.subrange(0, NONCE_LEN as int) =~= nonce_v);
                assert(bv.subrange(NONCE_LEN as int, bv.len() as int) =~= sealed_v);
                lemma_wf_is_model_distinct(snap);
                lemma_parse_ser(snap.model());
            }
            disk.contents = Some(blob);
            Ok(())
        },
    }
}

/// Commits the open snapshot to the slot under a fresh random nonce.
/// Fails with `NotInitialized` when the vault is not open, and with
/// `CryptoFailed` when no randomness is available or the snapshot is too
/// long to seal.
pub fn commit_snapshot(state: &VaultState, disk: &mut BlobSlot) -> (r: Result<(), VaultError>)
    requires
        state.wf(),
    ensures
        match r {
            Ok(()) => {
                &&& state.is_open()
                &&& final(disk)@ is Some
                &&& spec_unseal(state.ctx_key(), final(disk)@.unwrap()) == Some(state.open_model())
            },
            Err(e) => {
                &&& *final(disk) == *old(disk)
                &&& (!state.is_open() ==> e == VaultError::NotInitialized)
                &&& (state.is_open() ==> e == VaultError::CryptoFailed)
            },
        },
{
    if state.snapshot.is_none() {
        return Err(VaultError::NotInitialized);
    }
    match random_bytes(NONCE_LEN) {
        None => Err(VaultError::CryptoFailed),
        Some(nonce) => commit_with_nonce(state, disk, nonce),
    }
}

/// Reads one entry, healing first.  `Ok(None)` when the namespace or key
/// is absent.
pub fn read_entry(state: &mut VaultState, disk: &mut BlobSlot, ns: &str, key: &[u8]) -> (r: Result<
    Option<Vec<u8>>,
    VaultError,
>)
    requires
        old(state).wf(),
    ensures
        final(state).wf(),
        match r {
            Ok(v) => {
                &&& !heal_fails(*old(state))
                &&& final(state).is_open()
                &&& final(state).ctx_view() == old(state).ctx_view()
                &&& final(state).open_model() == healed_model(*old(state), old(disk)@)
                &&& final(state).open_view() == healed_view(*old(state), old(disk)@)
                &&& final(disk)@ == healed_blob(*old(state), old(disk)@)
                &&& match v {
                    Some(bytes) => {
                        &&& final(state).open_view().contains_key(ns@)
                        &&& final(state).open_view()[ns@].contains_key(key@)
                        &&& bytes@ == final(state).open_view()[ns@][key@]
                    },
                    None => !final(state).open_view().contains_key(ns@)
                        || !final(state).open_view()[ns@].contains_key(key@),
                }
            },
            Err(e) => e == VaultError::NotInitialized && heal_fails(*old(state)) && *final(state)
                == *old(state) && *final(disk) == *old(disk),
        },
{
    match ensure_ready(state, disk) {
        Err(e) => Err(e),
        Ok(()) => {
            proof {
                lemma_view_of_model(&state.snapshot.unwrap());
            }
            match &state.snapshot {
                None => Err(VaultError::NotInitialized),  // unreachable: ensure_ready opened the vault
                Some(snap) => match snap.ns_get(ns, key) {
                    Some(v) => Ok(Some(v.clone())),
                    None => Ok(None),
                },
            }
        },
    }
}

/// Writes one entry, healing first; creates the namespace on first use.
/// Purely in memory: persistence happens at the next commit.
pub fn write_entry(
    state: &mut VaultState,
    disk: &mut BlobSlot,
    ns: &str,
    key: Vec<u8>,
    value: Vec<u8>,
) -> (r: Result<(), VaultError>)
    requires
        old(state).wf(),
    ensures
        final(state).wf(),
        match r {
            Ok(()) => {
                &&& !heal_fails(*old(state))
                &&& final(state).is_open()
                &&& final(state).ctx_view() == old(state).ctx_view()
                &&& final(disk)@ == healed_blob(*old(state), old(disk)@)
                &&& final(state).open_view() == healed_view(*old(state), old(disk)@).insert(
                    ns@,
                    crate::snapshot::Snapshot::spec_ns_inserted(
                        healed_view(*old(state), old(disk)@),
                        ns@,
                        key@,
                        value@,
                    ),
                )
            },
            Err(e) => e == VaultError::NotInitialized && heal_fails(*old(state)) && *final(state)
                == *old(state) && *final(disk) == *old(disk),
        },
{
    match ensure_ready(state, disk) {
        Err(e) => Err(e),
        Ok(()) => {
            proof {
                lemma_view_of_model(&state.snapshot.unwrap());
            }
            match &mut state.snapshot {
                None => Err(VaultError::NotInitialized),  // unreachable: ensure_ready opened the vault
                Some(snap) => {
                    snap.ns_insert(ns, key, value);
                    Ok(())
                },
            }
        },
    }
}

/// Deletes one key from a namespace, healing first; a no-op when the
/// namespace does not exist.  Purely in memory.
pub fn delete_entry(state: &mut VaultState, disk: &mut BlobSlot, ns: &str, key: &[u8]) -> (r:
    Result<(), VaultError>)
    requires
        old(state).wf(),
    ensures
        final(state).wf(),
        match r {
            Ok(()) => {
                &&& !heal_fails(*old(state))
                &&& final(state).is_open()
                &&& final(state).ctx_view() == old(state).ctx_view()
                &&& final(disk)@ == healed_blob(*old(state), old(disk)@)
                &&& final(state).open_view() == if healed_view(
                    *old(state),
                    old(disk)@,
                ).contains_key(ns@) {
                    healed_view(*old(state), old(disk)@).insert(
                        ns@,
                        healed_view(*old(state), old(disk)@)[ns@].remove(key@),
                    )
                } else {
                    healed_view(*old(state), old(disk)@)
                }
            },
            Err(e) => e == VaultError::NotInitialized && heal_fails(*old(state)) && *final(state)
                == *old(state) && *final(disk) == *old(disk),
        },
{
    match ensure_ready(state, disk) {
        Err(e) => Err(e),
        Ok(()) => {
            proof {
                lemma_view_of_model(&state.snapshot.unwrap());
            }
            match &mut state.snapshot {
                None => Err(VaultError::NotInitialized),  // unreachable: ensure_ready opened the vault
                Some(snap) => {
                    snap.ns_delete_key(ns, key);
                    Ok(())
                },
            }
        },
    }
}

} // verus!
