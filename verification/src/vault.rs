//! Indexed credential store: many wallet secrets are kept under one
//! service name by numbering accounts `wallet-key1`, `wallet-key2`, ...
//! Saving probes indices from 1 and writes to the first vacant slot;
//! listing scans from 1 and stops at the first vacant slot.
//!
//! The probe/write and scan protocols are state machines
//! ([`SaveSession`]) driven by whoever talks to the real secure-storage
//! backend; [`MemoryVault`] runs the same protocol against an in-memory
//! backend and carries the proofs about it.

use crate::codec::{bs58_bytes_of, bs58_decode, bs58_encode, bs58_str_of, push_char};
use vstd::prelude::*;
use vstd::slice::slice_subrange;
use vstd::string::*;

verus! {

/// Service name under which every vault entry is stored.
pub const SERVICE_NAME: &'static str = "com.tradingapp.dev";

/// Base of the indexed account names.
pub const ACCOUNT_BASE: &'static str = "wallet-key";

/// Why a vault operation failed.
#[derive(Debug)]
pub enum VaultError {
    /// The requested slot holds no secret.
    NotFound,
    /// The secure-storage backend failed for a reason other than absence.
    BackendError(String),
}

/// Serializable error handed to the command layer: a backend failure
/// message.
#[derive(Debug)]
pub struct KeyringError {
    message: String,
}

impl View for KeyringError {
    type V = Seq<char>;

    closed spec fn view(&self) -> Seq<char> {
        self.message@
    }
}

impl KeyringError {
    pub fn new(message: String) -> (r: Self)
        ensures
            r@ == message@,
    {
        KeyringError { message }
    }

    pub fn message(&self) -> (r: &String)
        ensures
            r@ == self@,
    {
        &self.message
    }
}

/// One listed wallet: the account it is stored under and the public
/// identifier derived from its secret.
#[derive(Debug)]
pub struct StoredWallet {
    pub public_key: String,
    pub account: String,
}

/// Mathematical image of a [`StoredWallet`].
pub ghost struct WalletV {
    pub public_key: Seq<char>,
    pub account: Seq<char>,
}

impl View for StoredWallet {
    type V = WalletV;

    open spec fn view(&self) -> WalletV {
        WalletV { public_key: self.public_key@, account: self.account@ }
    }
}

/// The character `'0' + d` of a decimal digit `d`.
pub open spec fn digit_char(d: nat) -> char {
    ((48 + d) as u8) as char
}

/// The decimal representation of `n`, most significant digit first.
pub open spec fn dec_rep(n: nat) -> Seq<char>
    decreases n,
{
    if n < 10 {
        seq![digit_char(n)]
    } else {
        dec_rep(n / 10).push(digit_char(n % 10))
    }
}

/// The account name of slot `index`: the base name followed by the
/// decimal index.
pub open spec fn account_seq(index: nat) -> Seq<char> {
    ACCOUNT_BASE@ + dec_rep(index)
}

fn digit_to_char(d: u64) -> (c: char)
    requires
        d < 10,
    ensures
        c == digit_char(d as nat),
{
    (48 + d as u8) as char
}

fn push_dec(s: &mut String, n: u64)
    ensures
        final(s)@ == old(s)@ + dec_rep(n as nat),
    decreases n,
{
    if n < 10 {
        push_char(s, digit_to_char(n));
    } else {
        push_dec(s, n / 10);
        push_char(s, digit_to_char(n % 10));
    }
    assert(final(s)@ =~= old(s)@ + dec_rep(n as nat));
}

/// The account name probed or written for index `index`.
pub fn account_name(index: u64) -> (r: String)
    ensures
        r@ == account_seq(index as nat),
{
    let mut s = String::from_str(ACCOUNT_BASE);
    push_dec(&mut s, index);
    s
}

/// The listing entry derived from a stored secret: present exactly when
/// the secret is a valid base58-encoded 64-byte keypair, in which case
/// the public identifier is the base58 encoding of its last 32 bytes.
pub open spec fn wallet_entry_spec(account: Seq<char>, secret: Seq<char>) -> Option<WalletV> {
    match bs58_bytes_of(secret) {
        Some(b) => if b.len() == 64 {
            Some(WalletV { public_key: bs58_str_of(b.subrange(32, 64)), account })
        } else {
            None
        },
        None => None,
    }
}

/// Validates a stored secret and derives its listing entry, skipping
/// secrets that do not decode to exactly 64 bytes.
pub fn wallet_entry(account: String, secret: &str) -> (r: Option<StoredWallet>)
    ensures
        match r {
            Some(w) => wallet_entry_spec(account@, secret@) == Some(w@),
            None => wallet_entry_spec(account@, secret@) is None,
        },
{
    match bs58_decode(secret) {
        Some(bytes) => {
            if bytes.len() == 64 {
                let tail = slice_subrange(bytes.as_slice(), 32, 64);
                let public_key = bs58_encode(tail);
                Some(StoredWallet { public_key, account })
            } else {
                None
            }
        },
        None => None,
    }
}

/// Where a run of the save protocol stands.
pub enum SavePhase {
    /// Reading slots in index order, looking for a vacant one.
    Probing,
    /// A vacant slot was found; the secret is being written there.
    Writing,
    /// The write succeeded.
    Complete,
    /// The backend failed the write.
    Failed,
}

/// One run of the save protocol. The driver performs the backend reads
/// and writes and reports each outcome; the session decides what comes
/// next. It probes indices 1, 2, ... in order and writes to the first
/// index whose probe found no secret, so it never overwrites one.
pub struct SaveSession {
    index: u64,
    phase: SavePhase,
}

impl SaveSession {
    /// The index the session currently probes or writes.
    pub closed spec fn spec_index(&self) -> u64 {
        self.index
    }

    pub closed spec fn spec_phase(&self) -> SavePhase {
        self.phase
    }

    /// A fresh run, probing index 1 first.
    pub fn begin() -> (r: Self)
        ensures
            r.spec_index() == 1,
            r.spec_phase() == SavePhase::Probing,
    {
        SaveSession { index: 1, phase: SavePhase::Probing }
    }

    /// The index the driver is currently asked to probe or write.
    pub fn current_index(&self) -> (r: u64)
        ensures
            r == self.spec_index(),
    {
        self.index
    }

    /// The account name the driver must read (while probing) or write
    /// (while writing).
    pub fn account(&self) -> (r: String)
        ensures
            r@ == account_seq(self.spec_index() as nat),
    {
        account_name(self.index)
    }

    /// Feeds the outcome of probing the current account: `present` says
    /// whether a secret is already stored there. An occupied slot moves
    /// the probe to the next index; a vacant one is written.
    pub fn on_probe(&mut self, present: bool)
        requires
            old(self).spec_phase() == SavePhase::Probing,
            old(self).spec_index() < u64::MAX,
        ensures
            present ==> final(self).spec_phase() == SavePhase::Probing
                && final(self).spec_index() == old(self).spec_index() + 1,
            !present ==> final(self).spec_phase() == SavePhase::Writing
                && final(self).spec_index() == old(self).spec_index(),
    {
        if present {
            self.index = self.index + 1;
        } else {
            self.phase = SavePhase::Writing;
        }
    }

    /// Feeds the outcome of the terminal write.
    pub fn on_write(&mut self, ok: bool)
        requires
            old(self).spec_phase() == SavePhase::Writing,
        ensures
            final(self).spec_index() == old(self).spec_index(),
            ok ==> final(self).spec_phase() == SavePhase::Complete,
            !ok ==> final(self).spec_phase() == SavePhase::Failed,
    {
        self.phase = if ok {
            SavePhase::Complete
        } else {
            SavePhase::Failed
        };
    }
}

/// The first vacant slot of a backend state (0-based), or the length
/// when every slot is occupied.
pub open spec fn first_free(slots: Seq<Option<Seq<char>>>) -> int
    decreases slots.len(),
{
    if slots.len() == 0 {
        0
    } else if slots[0] is None {
        0
    } else {
        1 + first_free(slots.drop_first())
    }
}

/// The backend state after a save: the first vacant slot now holds the
/// secret; a backend with no vacant slot grows by one.
pub open spec fn save_view(slots: Seq<Option<Seq<char>>>, secret: Seq<char>) -> Seq<
    Option<Seq<char>>,
> {
    if first_free(slots) == slots.len() {
        slots.push(Some(secret))
    } else {
        slots.update(first_free(slots), Some(secret))
    }
}

/// What a direct load at account index `index` (1-based) returns.
pub open spec fn load_view(slots: Seq<Option<Seq<char>>>, index: int) -> Option<Seq<char>> {
    if 1 <= index <= slots.len() && slots[index - 1] is Some {
        Some(slots[index - 1]->0)
    } else {
        None
    }
}

/// The entries listed from the first `n` slots, each of which must be
/// occupied: slot `k` contributes its entry under account index `k + 1`,
/// and invalid secrets are skipped.
pub open spec fn listing(slots: Seq<Option<Seq<char>>>, n: int) -> Seq<WalletV>
    decreases n,
{
    if n <= 0 {
        Seq::empty()
    } else {
        listing(slots, n - 1) + match wallet_entry_spec(account_seq(n as nat), slots[n - 1]->0) {
            Some(w) => seq![w],
            None => Seq::<WalletV>::empty(),
        }
    }
}

pub proof fn lemma_first_free(slots: Seq<Option<Seq<char>>>)
    ensures
        0 <= first_free(slots) <= slots.len(),
        forall|k: int| 0 <= k < first_free(slots) ==> slots[k] is Some,
        first_free(slots) < slots.len() ==> slots[first_free(slots)] is None,
    decreases slots.len(),
{
    if slots.len() > 0 && slots[0] is Some {
        lemma_first_free(slots.drop_first());
        assert forall|k: int| 0 <= k < first_free(slots) implies slots[k] is Some by {
            if k > 0 {
                assert(slots.drop_first()[k - 1] is Some);
            }
        }
    }
}

/// A backend whose slots below `i` are all occupied, and whose slot `i`
/// (if any) is vacant, has its first vacant slot exactly at `i`.
pub proof fn lemma_first_free_at(slots: Seq<Option<Seq<char>>>, i: int)
    requires
        0 <= i <= slots.len(),
        forall|k: int| 0 <= k < i ==> slots[k] is Some,
        i < slots.len() ==> slots[i] is None,
    ensures
        first_free(slots) == i,
    decreases slots.len(),
{
    if slots.len() > 0 && i > 0 {
        assert(slots[0] is Some);
        lemma_first_free_at(slots.drop_first(), i - 1);
    }
}

/// An in-memory secret backend running the vault protocol: slot `k`
/// (0-based) holds the secret of account index `k + 1`.
pub struct MemoryVault {
    slots: Vec<Option<String>>,
}

impl View for MemoryVault {
    type V = Seq<Option<Seq<char>>>;

    closed spec fn view(&self) -> Seq<Option<Seq<char>>> {
        self.slots@.map_values(
            |o: Option<String>|
                match o {
                    Some(s) => Some(s@),
                    None => None,
                },
        )
    }
}

impl MemoryVault {
    /// An empty backend.
    pub fn new() -> (r: Self)
        ensures
            r@ =~= Seq::<Option<Seq<char>>>::empty(),
    {
        MemoryVault { slots: Vec::new() }
    }

    /// Saves a secret in the first vacant slot, probing account indices
    /// from 1 with a [`SaveSession`], and returns the account index it
    /// was stored under. No existing secret is overwritten.
    pub fn save_secret(&mut self, secret: &str) -> (idx: u64)
        requires
            old(self)@.len() + 1 < u64::MAX,
        ensures
            idx == first_free(old(self)@) + 1,
            idx <= old(self)@.len() + 1,
            final(self)@ == save_view(old(self)@, secret@),
            load_view(final(self)@, idx as int) == Some(secret@),
            first_free(old(self)@) < old(self)@.len() ==> old(self)@[first_free(old(self)@)] is None,
    {
        let ghost slots0 = self@;
        let mut session = SaveSession::begin();
        let mut i: usize = 0;
        loop
            invariant_except_break
                session.spec_phase() == SavePhase::Probing,
            invariant
                self@ == slots0,
                slots0.len() + 1 < u64::MAX,
                self.slots.len() == slots0.len(),
                i <= slots0.len(),
                session.spec_index() == i + 1,
                forall|k: int| 0 <= k < i ==> slots0[k] is Some,
            ensures
                session.spec_phase() == SavePhase::Writing,
                session.spec_index() == i + 1,
                i <= slots0.len(),
                forall|k: int| 0 <= k < i ==> slots0[k] is Some,
                i < slots0.len() ==> slots0[i as int] is None,
            decreases slots0.len() - i,
        {
            if i == self.slots.len() {
                session.on_probe(false);
                break;
            }
            let present = self.slots[i].is_some();
            assert(slots0[i as int] is Some == present);
            session.on_probe(present);
            if !present {
                break;
            }
            i = i + 1;
        }
        proof {
            lemma_first_free_at(slots0, i as int);
        }
        let stored = Some(secret.to_owned());
        if i == self.slots.len() {
            self.slots.push(stored);
            assert(self@ =~= save_view(slots0, secret@));
        } else {
            let slot = &mut self.slots[i];
            *slot = stored;
            assert(self@ =~= save_view(slots0, secret@));
        }
        session.on_write(true);
        (i as u64) + 1
    }

    /// Reads the secret stored under account index `index` directly;
    /// a gap at a lower index does not hide it.
    pub fn load_secret(&self, index: u64) -> (r: Result<String, VaultError>)
        ensures
            match r {
                Ok(s) => load_view(self@, index as int) == Some(s@),
                Err(e) => load_view(self@, index as int) is None && e is NotFound,
            },
    {
        if 1 <= index && index <= self.slots.len() as u64 {
            let k = (index - 1) as usize;
            match &self.slots[k] {
                Some(s) => Ok(s.clone()),
                None => Err(VaultError::NotFound),
            }
        } else {
            Err(VaultError::NotFound)
        }
    }

    /// Removes exactly the secret at `index`; every other slot stays as
    /// it is, so entries are never renumbered.
    pub fn delete_secret(&mut self, index: u64) -> (r: Result<(), VaultError>)
        ensures
            match r {
                Ok(()) => load_view(old(self)@, index as int) is Some && final(self)@ == old(self)@.update(index as int - 1, None::<Seq<char>>),
                Err(e) => e is NotFound && load_view(old(self)@, index as int) is None && final(self)@ == old(self)@,
            },
    {
        if 1 <= index && index <= self.slots.len() as u64 {
            let k = (index - 1) as usize;
            if self.slots[k].is_some() {
                let slot = &mut self.slots[k];
                *slot = None;
                assert(self@ =~= old(self)@.update(index as int - 1, None::<Seq<char>>));
                Ok(())
            } else {
                Err(VaultError::NotFound)
            }
        } else {
            Err(VaultError::NotFound)
        }
    }

    /// Lists the stored wallets: scans account indices from 1, stops at
    /// the first vacant slot, and skips secrets that are not valid
    /// base58-encoded 64-byte keypairs.
    pub fn list_secrets(&self) -> (r: Vec<StoredWallet>)
        requires
            self@.len() < u64::MAX,
        ensures
            r@.map_values(|w: StoredWallet| w@) == listing(self@, first_free(self@)),
    {
        let mut out: Vec<StoredWallet> = Vec::new();
        let mut i: usize = 0;
        loop
            invariant
                self@.len() < u64::MAX,
                self.slots.len() == self@.len(),
                i <= self.slots.len(),
                forall|k: int| 0 <= k < i ==> self@[k] is Some,
                out@.map_values(|w: StoredWallet| w@) == listing(self@, i as int),
            ensures
                i <= self.slots.len(),
                forall|k: int| 0 <= k < i ==> self@[k] is Some,
                i < self@.len() ==> self@[i as int] is None,
                out@.map_values(|w: StoredWallet| w@) == listing(self@, i as int),
            decreases self.slots.len() - i,
        {
            if i == self.slots.len() {
                break;
            }
            let secret = match &self.slots[i] {
                Some(s) => s,
                None => {
                    break;
                },
            };
            let account = account_name((i as u64) + 1);
            match wallet_entry(account, secret.as_str()) {
                Some(w) => {
                    out.push(w);
                    assert(out@.map_values(|w: StoredWallet| w@) =~= listing(self@, i + 1));
                },
                None => {
                    assert(out@.map_values(|w: StoredWallet| w@) =~= listing(self@, i + 1));
                },
            }
            i = i + 1;
        }
        proof {
            lemma_first_free_at(self@, i as int);
        }
        out
    }
}

/// Law: saving allocates the first unused index and never overwrites.
/// The slot it fills held no secret, a direct load at the returned index
/// yields exactly the saved value, and a subsequent save allocates a
/// strictly larger index.
pub proof fn lemma_save_allocates_fresh(slots: Seq<Option<Seq<char>>>, secret: Seq<char>)
    ensures
        first_free(slots) < slots.len() ==> slots[first_free(slots)] is None,
        load_view(save_view(slots, secret), first_free(slots) + 1) == Some(secret),
        first_free(save_view(slots, secret)) > first_free(slots),
{
    lemma_first_free(slots);
    let f = first_free(slots);
    let saved = save_view(slots, secret);
    assert(saved[f] == Some(secret));
    assert forall|k: int| 0 <= k < f + 1 implies saved[k] is Some by {
        if k < f {
            assert(slots[k] is Some);
        }
    }
    lemma_first_free(saved);
    if first_free(saved) <= f {
        assert(saved[first_free(saved)] is Some);
        assert(first_free(saved) < saved.len() ==> saved[first_free(saved)] is None);
    }
}

/// The listing never has more entries than the slots it scanned.
pub proof fn lemma_listing_len(slots: Seq<Option<Seq<char>>>, n: int)
    requires
        0 <= n,
    ensures
        listing(slots, n).len() <= n,
    decreases n,
{
    if n > 0 {
        lemma_listing_len(slots, n - 1);
        assert(listing(slots, n).len() <= listing(slots, n - 1).len() + 1);
    }
}

/// Law: with occupied slots holding valid secrets at every index
/// 1..=N and no gap, the listing has exactly N entries, pairing account
/// index k with the public identifier derived from its secret.
pub proof fn lemma_listing_complete(slots: Seq<Option<Seq<char>>>, n: int)
    requires
        0 <= n <= slots.len(),
        forall|k: int|
            0 <= k < n ==> slots[k] is Some && wallet_entry_spec(
                account_seq((k + 1) as nat),
                slots[k]->0,
            ) is Some,
    ensures
        listing(slots, n).len() == n,
        forall|k: int|
            0 <= k < n ==> listing(slots, n)[k] == wallet_entry_spec(
                account_seq((k + 1) as nat),
                slots[k]->0,
            )->0,
    decreases n,
{
    if n > 0 {
        lemma_listing_complete(slots, n - 1);
    }
}

/// Law: a vacant slot at index k + 1 hides every entry past it from the
/// listing, even though direct loads at higher indices still succeed.
pub proof fn lemma_gap_hides_later(slots: Seq<Option<Seq<char>>>, k: int)
    requires
        0 <= k < slots.len(),
        slots[k] is None,
    ensures
        first_free(slots) <= k,
        listing(slots, first_free(slots)).len() <= k,
        forall|j: int|
            k < j < slots.len() && slots[j] is Some ==> load_view(slots, j + 1) == Some(
                slots[j]->0,
            ),
{
    lemma_first_free(slots);
    if first_free(slots) > k {
        assert(slots[k] is Some);
    }
    lemma_listing_len(slots, first_free(slots));
}

} // verus!
