//! The vault: the encrypted-secret table, its lease manager, and the
//! operations over them.
//!
//! A vault is one aggregate, read and written whole. Reading the
//! persisted file, prompting, and writing it back (atomically, via a
//! temporary file and a rename) are the embedding program's business;
//! it hands the parsed aggregate in here and serializes what it gets
//! back after every mutating call. Time is always passed in as whole
//! seconds, so every expiry decision here is a pure predicate.

use vstd::prelude::*;
use vstd::string::{StrSliceExecFns, StringExecFns};
use vstd::utf8::{encode_scalar, encode_utf8};

use crate::crypto::{decrypt_outcome, CryptoEngine, EncryptedData, SecretKey};
use crate::errors::VaultError;
use crate::lease::{duration_secs_of, expired_count_from, parse_duration, Lease, LeaseManager};
use crate::namemap::{has_name, map_find, map_insert, map_remove, names_all_unique, names_sorted,
    names_unique, value_of};
use crate::schema_version;
use crate::utils::{
    lemma_lex_total, lemma_lex_trans, lex_lt, now_ts, sanitize_secret_name, str_lt, validate_secret_value, valid_secret_name,
    valid_secret_value,
};

verus! {

/// One stored secret: its ciphertext with bookkeeping fields.
#[derive(Debug, Clone, PartialEq, Eq)]
pub struct SecretEntry {
    pub encrypted_value: EncryptedData,
    pub created_at: i64,
    pub updated_at: i64,
    pub access_count: u64,
    pub last_accessed: Option<i64>,
}

/// Whether two entries hold the same bytes and bookkeeping — equality
/// up to where the byte buffers live.
pub open spec fn entry_like(a: SecretEntry, b: SecretEntry) -> bool {
    &&& a.encrypted_value.ciphertext@ == b.encrypted_value.ciphertext@
    &&& a.encrypted_value.nonce@ == b.encrypted_value.nonce@
    &&& a.created_at == b.created_at
    &&& a.updated_at == b.updated_at
    &&& a.access_count == b.access_count
    &&& a.last_accessed == b.last_accessed
}

impl SecretEntry {
    /// A fresh entry created at `now`, never accessed.
    pub fn new(encrypted_value: EncryptedData, now: i64) -> (r: Self)
        ensures
            r.encrypted_value == encrypted_value,
            r.created_at == now,
            r.updated_at == now,
            r.access_count == 0,
            r.last_accessed is None,
    {
        SecretEntry {
            encrypted_value,
            created_at: now,
            updated_at: now,
            access_count: 0,
            last_accessed: None,
        }
    }

    /// Record one access at `now`.
    pub fn mark_accessed(&mut self, now: i64)
        requires
            old(self).access_count < u64::MAX,
        ensures
            final(self).access_count == old(self).access_count + 1,
            final(self).last_accessed == Some(now),
            final(self).encrypted_value == old(self).encrypted_value,
            final(self).created_at == old(self).created_at,
            final(self).updated_at == old(self).updated_at,
    {
        self.access_count = self.access_count + 1;
        self.last_accessed = Some(now);
    }

    /// A copy with the same bytes and bookkeeping.
    pub fn duplicate(&self) -> (r: Self)
        ensures
            entry_like(r, *self),
    {
        SecretEntry {
            encrypted_value: self.encrypted_value.duplicate(),
            created_at: self.created_at,
            updated_at: self.updated_at,
            access_count: self.access_count,
            last_accessed: self.last_accessed,
        }
    }
}

/// The single unit of persistence: every secret, every lease, the
/// creation timestamp and the schema version.
#[derive(Debug)]
pub struct VaultData {
    pub secrets: Vec<(String, SecretEntry)>,
    pub lease_manager: LeaseManager,
    pub created_at: i64,
    pub version: String,
}

impl VaultData {
    /// Names are pairwise distinct in both tables.
    pub open spec fn wf(&self) -> bool {
        names_unique(self.secrets@) && self.lease_manager.wf()
    }

    /// Rebuild an aggregate from plain parts, as read back from
    /// storage. A duplicated name in either table is a corrupt record.
    pub fn from_parts(
        secrets: Vec<(String, SecretEntry)>,
        leases: Vec<(String, Lease)>,
        created_at: i64,
        version: String,
    ) -> (r: Result<VaultData, VaultError>)
        ensures
            r matches Ok(d) ==> d.wf() && d.secrets@ == secrets@ && d.lease_manager@ == leases@
                && d.created_at == created_at && d.version@ == version@,
            r matches Err(e) ==> e == VaultError::CorruptVault,
            names_unique(secrets@) && names_unique(leases@) ==> r is Ok,
    {
        if !names_all_unique(&secrets) {
            return Err(VaultError::CorruptVault);
        }
        let lease_manager = match LeaseManager::from_entries(leases) {
            Ok(m) => m,
            Err(e) => {
                return Err(e);
            },
        };
        Ok(VaultData { secrets, lease_manager, created_at, version })
    }

    /// A copy of the whole aggregate with the same contents.
    pub fn duplicate(&self) -> (r: Self)
        ensures
            self.wf() ==> r.wf(),
            r.secrets@.len() == self.secrets@.len(),
            forall|i: int|
                0 <= i < self.secrets@.len() ==> (#[trigger] r.secrets@[i]).0@
                    == self.secrets@[i].0@ && entry_like(r.secrets@[i].1, self.secrets@[i].1),
            r.lease_manager@ == self.lease_manager@,
            r.created_at == self.created_at,
            r.version@ == self.version@,
    {
        let mut secrets: Vec<(String, SecretEntry)> = Vec::new();
        let len = self.secrets.len();
        let mut i: usize = 0;
        while i < len
            invariant
                len == self.secrets@.len(),
                i <= len,
                secrets@.len() == i,
                forall|k: int|
                    0 <= k < i ==> (#[trigger] secrets@[k]).0@ == self.secrets@[k].0@ && entry_like(
                        secrets@[k].1,
                        self.secrets@[k].1,
                    ),
            decreases len - i,
        {
            secrets.push((self.secrets[i].0.clone(), self.secrets[i].1.duplicate()));
            i += 1;
        }
        proof {
            if self.wf() {
                assert forall|p: int, q: int|
                    0 <= p < q < secrets@.len() implies #[trigger] secrets@[p].0@
                    != #[trigger] secrets@[q].0@ by {
                    assert(self.secrets@[p].0@ != self.secrets@[q].0@);
                }
            }
        }
        VaultData {
            secrets,
            lease_manager: self.lease_manager.duplicate(),
            created_at: self.created_at,
            version: self.version.clone(),
        }
    }
}

impl Default for VaultData {
    /// An empty aggregate stamped with the current time and the schema
    /// version.
    fn default() -> (r: Self)
        ensures
            r.wf(),
            r.secrets@.len() == 0,
            r.lease_manager@.len() == 0,
            r.version@ == schema_version(),
    {
        VaultData {
            secrets: Vec::new(),
            lease_manager: LeaseManager::new(),
            created_at: now_ts(),
            version: version_string(),
        }
    }
}

/// The schema version as an owned string.
fn version_string() -> (r: String)
    ensures
        r@ == schema_version(),
{
    String::from_str("0.1.0")
}

/// Counters over the vault and the size of its persisted file.
#[derive(Debug)]
pub struct VaultStats {
    pub total_secrets: usize,
    pub active_leases: usize,
    pub expired_secrets: usize,
    pub vault_size: u64,
}

/// An export snapshot: the aggregate, the stored password verifier
/// (never the key), a timestamp and a version. No re-encryption is
/// performed; the backup's confidentiality is exactly the live
/// vault's.
#[derive(Debug)]
pub struct BackupData {
    pub vault_data: VaultData,
    pub identity_hash: String,
    pub created_at: i64,
    pub version: String,
}

/// The UTF-8 encoding of a string takes at most four bytes per
/// character.
proof fn lemma_encode_utf8_len(s: Seq<char>)
    ensures
        encode_utf8(s).len() <= 4 * s.len(),
    decreases s.len(),
{
    if s.len() > 0 {
        lemma_encode_utf8_len(s.drop_first());
        assert(encode_scalar(s[0] as u32).len() <= 4);
    }
}

/// A session over one loaded aggregate, holding the derived key.
pub struct Vault {
    data: VaultData,
    crypto_engine: CryptoEngine,
}

impl Vault {
    /// The session key bytes.
    pub closed spec fn key(&self) -> Seq<u8> {
        self.crypto_engine@
    }

    /// The secret table.
    pub closed spec fn secrets(&self) -> Seq<(String, SecretEntry)> {
        self.data.secrets@
    }

    /// The lease table.
    pub closed spec fn leases(&self) -> Seq<(String, Lease)> {
        self.data.lease_manager@
    }

    /// The aggregate's creation timestamp.
    pub closed spec fn created_at(&self) -> i64 {
        self.data.created_at
    }

    /// The aggregate's schema version.
    pub closed spec fn version(&self) -> Seq<char> {
        self.data.version@
    }

    /// Names are pairwise distinct in both tables.
    pub open spec fn wf(&self) -> bool {
        names_unique(self.secrets()) && names_unique(self.leases())
    }

    /// Whether `name` carries a lease that is expired at `now`.
    pub open spec fn lease_expired_at(&self, name: Seq<char>, now: i64) -> bool {
        has_name(self.leases(), name) && value_of(self.leases(), name).spec_is_expired(now)
    }

    /// The aggregate, for persisting after a mutating call.
    pub fn data(&self) -> (r: &VaultData)
        ensures
            r.secrets@ == self.secrets(),
            r.lease_manager@ == self.leases(),
            r.created_at == self.created_at(),
            r.version@ == self.version(),
    {
        &self.data
    }

    /// Give the aggregate back, for persisting and closing the
    /// session.
    pub fn into_data(self) -> (r: VaultData)
        ensures
            r.secrets@ == self.secrets(),
            r.lease_manager@ == self.leases(),
            r.created_at == self.created_at(),
            r.version@ == self.version(),
    {
        self.data
    }

    /// Open a loaded aggregate under the session key, performing the
    /// eager expiry sweep: every name whose lease is expired at `now`
    /// loses both its lease and its secret entry, before any other
    /// operation runs.
    pub fn load(data: VaultData, key: &SecretKey, now: i64) -> (r: Vault)
        requires
            data.wf(),
        ensures
            r.wf(),
            r.key() == key@,
            r.created_at() == data.created_at,
            r.version() == data.version@,
            forall|n: Seq<char>|
                #[trigger] has_name(r.leases(), n) <==> has_name(data.lease_manager@, n)
                    && !value_of(data.lease_manager@, n).spec_is_expired(now),
            forall|n: Seq<char>|
                #[trigger] has_name(r.leases(), n) ==> value_of(r.leases(), n) == value_of(
                    data.lease_manager@,
                    n,
                ),
            forall|n: Seq<char>|
                #[trigger] has_name(r.secrets(), n) <==> has_name(data.secrets@, n) && !(has_name(
                    data.lease_manager@,
                    n,
                ) && value_of(data.lease_manager@, n).spec_is_expired(now)),
            forall|n: Seq<char>|
                #[trigger] has_name(r.secrets(), n) ==> value_of(r.secrets(), n) == value_of(
                    data.secrets@,
                    n,
                ),
    {
        let mut data = data;
        let ghost secrets0 = data.secrets@;
        let ghost leases0 = data.lease_manager@;
        let ghost created0 = data.created_at;
        let ghost version0 = data.version@;
        let expired = data.lease_manager.cleanup_expired(now);
        let total = expired.len();
        let mut j: usize = 0;
        while j < total
            invariant
                total == expired@.len(),
                names_unique(data.secrets@),
                data.lease_manager.wf(),
                data.created_at == created0,
                data.version@ == version0,
                j <= total,
                forall|p: int|
                    0 <= p < expired@.len() ==> has_name(leases0, #[trigger] expired@[p]@)
                        && value_of(leases0, expired@[p]@).spec_is_expired(now),
                forall|n: Seq<char>|
                    #[trigger] has_name(leases0, n) && value_of(leases0, n).spec_is_expired(now)
                        ==> exists|p: int| 0 <= p < expired@.len() && expired@[p]@ == n,
                forall|n: Seq<char>|
                    #[trigger] has_name(data.secrets@, n) <==> has_name(secrets0, n) && !(exists|
                        p: int,
                    |
                        0 <= p < j && expired@[p]@ == n),
                forall|n: Seq<char>|
                    #[trigger] has_name(data.secrets@, n) ==> value_of(data.secrets@, n)
                        == value_of(secrets0, n),
                forall|n: Seq<char>|
                    #[trigger] has_name(data.lease_manager@, n) <==> has_name(leases0, n)
                        && !value_of(leases0, n).spec_is_expired(now),
                forall|n: Seq<char>|
                    #[trigger] has_name(data.lease_manager@, n) ==> value_of(
                        data.lease_manager@,
                        n,
                    ) == value_of(leases0, n),
            decreases total - j,
        {
            let _ = map_remove(&mut data.secrets, expired[j].as_str());
            j += 1;
        }
        proof {
            assert forall|n: Seq<char>| #[trigger] has_name(data.secrets@, n) <==> (has_name(
                secrets0,
                n,
            ) && !(has_name(leases0, n) && value_of(leases0, n).spec_is_expired(now))) by {
                if has_name(leases0, n) && value_of(leases0, n).spec_is_expired(now) {
                    assert(exists|p: int| 0 <= p < expired@.len() && expired@[p]@ == n);
                }
                if exists|p: int| 0 <= p < expired@.len() && expired@[p]@ == n {
                    let p = choose|p: int| 0 <= p < expired@.len() && expired@[p]@ == n;
                    assert(has_name(leases0, n) && value_of(leases0, n).spec_is_expired(now));
                }
            }
        }
        Vault { data, crypto_engine: CryptoEngine::new(key) }
    }

    /// Validate, encrypt and store one secret under `name`,
    /// overwriting any previous entry (which resets its access
    /// statistics). The caller persists the aggregate afterwards; a
    /// validation failure leaves the vault untouched.
    pub fn add_secret(&mut self, name: &str, value: &str, now: i64) -> (r: Result<(), VaultError>)
        requires
            old(self).wf(),
        ensures
            final(self).wf(),
            final(self).key() == old(self).key(),
            final(self).created_at() == old(self).created_at(),
            final(self).version() == old(self).version(),
            r matches Err(e) ==> e == VaultError::Validation && *final(self) == *old(self) && (
            !valid_secret_name(name@) || !valid_secret_value(value@)),
            valid_secret_name(name@) && valid_secret_value(value@) ==> r is Ok,
            r is Ok ==> ({
                &&& valid_secret_name(name@)
                &&& valid_secret_value(value@)
                &&& has_name(final(self).secrets(), name@)
                &&& decrypt_outcome(
                    old(self).key(),
                    value_of(final(self).secrets(), name@).encrypted_value.nonce@,
                    value_of(final(self).secrets(), name@).encrypted_value.ciphertext@,
                ) == Ok::<Seq<char>, VaultError>(value@)
                &&& value_of(final(self).secrets(), name@).created_at == now
                &&& value_of(final(self).secrets(), name@).updated_at == now
                &&& value_of(final(self).secrets(), name@).access_count == 0
                &&& value_of(final(self).secrets(), name@).last_accessed is None
                &&& (forall|n: Seq<char>|
                    n != name@ ==> #[trigger] has_name(final(self).secrets(), n) == has_name(
                        old(self).secrets(),
                        n,
                    ))
                &&& (forall|n: Seq<char>|
                    n != name@ && has_name(old(self).secrets(), n) ==> #[trigger] value_of(
                        final(self).secrets(),
                        n,
                    ) == value_of(old(self).secrets(), n))
                &&& final(self).leases() == old(self).leases()
            }),
    {
        let checked = match sanitize_secret_name(name) {
            Ok(s) => s,
            Err(e) => {
                return Err(e);
            },
        };
        match validate_secret_value(value) {
            Ok(()) => {},
            Err(e) => {
                return Err(e);
            },
        }
        proof {
            lemma_encode_utf8_len(value@);
        }
        let encrypted = match self.crypto_engine.encrypt(value) {
            Ok(e) => e,
            Err(e) => {
                proof {
                    assert(false);
                }
                return Err(e);
            },
        };
        let entry = SecretEntry::new(encrypted, now);
        proof {
            crate::crypto::lemma_encrypt_decrypt_round_trip(
                self.key(),
                entry.encrypted_value.nonce@,
                entry.encrypted_value.ciphertext@,
                value@,
            );
        }
        map_insert(&mut self.data.secrets, checked, entry);
        Ok(())
    }

    /// Look a secret up and decrypt it. An unknown name — or one whose
    /// lease has expired by `now`, re-checked here independently of the
    /// load-time sweep — is absent, not an error; reads do not mutate
    /// the vault.
    pub fn get_secret(&self, name: &str, now: i64) -> (r: Result<Option<String>, VaultError>)
        requires
            self.wf(),
        ensures
            !valid_secret_name(name@) ==> (r matches Err(e) && e == VaultError::Validation),
            valid_secret_name(name@) && !has_name(self.secrets(), name@) ==> (r matches Ok(o)
                && o is None),
            valid_secret_name(name@) && has_name(self.secrets(), name@) && self.lease_expired_at(
                name@,
                now,
            ) ==> (r matches Ok(o) && o is None),
            valid_secret_name(name@) && has_name(self.secrets(), name@) && !self.lease_expired_at(
                name@,
                now,
            ) ==> (match decrypt_outcome(
                self.key(),
                value_of(self.secrets(), name@).encrypted_value.nonce@,
                value_of(self.secrets(), name@).encrypted_value.ciphertext@,
            ) {
                Ok(p) => r matches Ok(o) && o matches Some(s) && s@ == p,
                Err(de) => r matches Err(e2) && e2 == de,
            }),
    {
        match sanitize_secret_name(name) {
            Ok(_) => {},
            Err(e) => {
                return Err(e);
            },
        }
        let found = map_find(&self.data.secrets, name);
        let i = match found {
            Some(i) => i,
            None => {
                return Ok(None);
            },
        };
        proof {
            crate::namemap::lemma_name_lookup(self.secrets(), i as int);
        }
        match self.data.lease_manager.get_lease(name) {
            Some(lease) => {
                if lease.is_expired(now) {
                    return Ok(None);
                }
            },
            None => {},
        }
        match self.crypto_engine.decrypt(&self.data.secrets[i].1.encrypted_value) {
            Ok(plaintext) => Ok(Some(plaintext)),
            Err(e) => Err(e),
        }
    }

    /// What one row of the listing must hold: a live secret's name and
    /// its lease expiry, if it has a lease.
    pub open spec fn listed_pair_ok(&self, pair: (String, Option<i64>), now: i64) -> bool {
        &&& has_name(self.secrets(), pair.0@)
        &&& !self.lease_expired_at(pair.0@, now)
        &&& pair.1 == (if has_name(self.leases(), pair.0@) {
            Some(value_of(self.leases(), pair.0@).expires_at)
        } else {
            None::<i64>
        })
    }

    /// The `(name, expiry)` pairs of every secret not expired at `now`,
    /// ordered lexicographically by name; expired entries are omitted
    /// silently, never reported as an error.
    pub fn list_secrets(&self, now: i64) -> (r: Result<Vec<(String, Option<i64>)>, VaultError>)
        requires
            self.wf(),
        ensures
            r is Ok,
            r matches Ok(v) ==> ({
                &&& names_sorted(v@)
                &&& (forall|p: int|
                    0 <= p < v@.len() ==> self.listed_pair_ok(#[trigger] v@[p], now))
                &&& (forall|n: Seq<char>|
                    #[trigger] has_name(self.secrets(), n) && !self.lease_expired_at(n, now)
                        ==> exists|p: int| 0 <= p < v@.len() && v@[p].0@ == n)
            }),
    {
        let live = self.live_pairs(now);
        let ghost live0 = live@;
        proof {
            assert forall|p: int, q: int|
                0 <= p < q < live0.len() implies #[trigger] live0[p].0@
                != #[trigger] live0[q].0@ by {
                assert(live0[p].0@ != live0[q].0@);
            }
        }
        let sorted = sort_pairs(live);
        proof {
            broadcast use vstd::seq_lib::group_to_multiset_ensures;

            assert forall|p: int|
                0 <= p < sorted@.len() implies self.listed_pair_ok(#[trigger] sorted@[p], now) by {
                assert(sorted@.contains(sorted@[p]));
                assert(sorted@.to_multiset().count(sorted@[p]) > 0);
                assert(live0.to_multiset().count(sorted@[p]) > 0);
                assert(live0.contains(sorted@[p]));
                let k = choose|k: int| 0 <= k < live0.len() && live0[k] == sorted@[p];
            }
            assert forall|n: Seq<char>|
                #[trigger] has_name(self.secrets(), n) && !self.lease_expired_at(
                    n,
                    now,
                ) implies exists|p: int| 0 <= p < sorted@.len() && sorted@[p].0@ == n by {
                let k = choose|k: int| 0 <= k < live0.len() && live0[k].0@ == n;
                assert(live0.contains(live0[k]));
                assert(live0.to_multiset().count(live0[k]) > 0);
                assert(sorted@.to_multiset().count(live0[k]) > 0);
                assert(sorted@.contains(live0[k]));
                let p = choose|p: int| 0 <= p < sorted@.len() && sorted@[p] == live0[k];
                assert(sorted@[p].0@ == n);
            }
        }
        Ok(sorted)
    }

    /// The rows of the listing, in table order: one per live secret.
    fn live_pairs(&self, now: i64) -> (out: Vec<(String, Option<i64>)>)
        requires
            self.wf(),
        ensures
            forall|p: int| 0 <= p < out@.len() ==> self.listed_pair_ok(#[trigger] out@[p], now),
            forall|n: Seq<char>|
                #[trigger] has_name(self.secrets(), n) && !self.lease_expired_at(n, now)
                    ==> exists|p: int| 0 <= p < out@.len() && out@[p].0@ == n,
            forall|p: int, q: int|
                #![trigger out@[p], out@[q]]
                0 <= p < q < out@.len() ==> out@[p].0@ != out@[q].0@,
    {
        let mut out: Vec<(String, Option<i64>)> = Vec::new();
        let len = self.data.secrets.len();
        let mut i: usize = 0;
        while i < len
            invariant
                self.wf(),
                len == self.secrets().len(),
                i <= len,
                forall|p: int|
                    0 <= p < out@.len() ==> exists|k: int|
                        0 <= k < i && self.secrets()[k].0@ == (#[trigger] out@[p]).0@,
                forall|p: int| 0 <= p < out@.len() ==> self.listed_pair_ok(#[trigger] out@[p], now),
                forall|k: int|
                    0 <= k < i && !self.lease_expired_at((#[trigger] self.secrets()[k]).0@, now)
                        ==> exists|p: int| 0 <= p < out@.len() && out@[p].0@ == self.secrets()[k].0@,
                forall|p: int, q: int|
                    #![trigger out@[p], out@[q]]
                    0 <= p < q < out@.len() ==> out@[p].0@ != out@[q].0@,
            decreases len - i,
        {
            proof {
                crate::namemap::lemma_name_lookup(self.secrets(), i as int);
            }
            let mut skip = false;
            let mut expiry: Option<i64> = None;
            match self.data.lease_manager.get_lease(self.data.secrets[i].0.as_str()) {
                Some(lease) => {
                    if lease.is_expired(now) {
                        skip = true;
                    } else {
                        expiry = Some(lease.expires_at);
                    }
                },
                None => {},
            }
            if !skip {
                let ghost out0 = out@;
                out.push((self.data.secrets[i].0.clone(), expiry));
                proof {
                    assert(out@[out@.len() - 1].0@ == self.secrets()[i as int].0@);
                    assert forall|k: int|
                        0 <= k < i + 1 && !self.lease_expired_at(
                            (#[trigger] self.secrets()[k]).0@,
                            now,
                        ) implies exists|p: int|
                        0 <= p < out@.len() && out@[p].0@ == self.secrets()[k].0@ by {
                        if k < i as int {
                            let p0 = choose|p: int|
                                0 <= p < out0.len() && out0[p].0@ == self.secrets()[k].0@;
                            assert(out@[p0].0@ == self.secrets()[k].0@);
                        }
                    }
                }
            }
            i += 1;
        }
        proof {
            assert forall|n: Seq<char>|
                #[trigger] has_name(self.secrets(), n) && !self.lease_expired_at(
                    n,
                    now,
                ) implies exists|p: int| 0 <= p < out@.len() && out@[p].0@ == n by {
                let k = choose|k: int| 0 <= k < self.secrets().len() && self.secrets()[k].0@ == n;
            }
        }
        out
    }

    /// Delete a secret and any lease it carries; say whether a secret
    /// entry was actually removed. The caller persists only when it
    /// was: removing an unknown name must leave the persisted file
    /// untouched.
    pub fn remove_secret(&mut self, name: &str) -> (r: Result<bool, VaultError>)
        requires
            old(self).wf(),
        ensures
            final(self).wf(),
            final(self).key() == old(self).key(),
            final(self).created_at() == old(self).created_at(),
            final(self).version() == old(self).version(),
            !valid_secret_name(name@) ==> (r matches Err(e) && e == VaultError::Validation
                && *final(self) == *old(self)),
            valid_secret_name(name@) ==> (r matches Ok(b) && b == has_name(
                old(self).secrets(),
                name@,
            )),
            r is Ok ==> ({
                &&& !has_name(final(self).secrets(), name@)
                &&& !has_name(final(self).leases(), name@)
                &&& (forall|n: Seq<char>|
                    n != name@ ==> #[trigger] has_name(final(self).secrets(), n) == has_name(
                        old(self).secrets(),
                        n,
                    ))
                &&& (forall|n: Seq<char>|
                    n != name@ && has_name(old(self).secrets(), n) ==> #[trigger] value_of(
                        final(self).secrets(),
                        n,
                    ) == value_of(old(self).secrets(), n))
                &&& (forall|n: Seq<char>|
                    n != name@ ==> #[trigger] has_name(final(self).leases(), n) == has_name(
                        old(self).leases(),
                        n,
                    ))
                &&& (forall|n: Seq<char>|
                    n != name@ && has_name(old(self).leases(), n) ==> #[trigger] value_of(
                        final(self).leases(),
                        n,
                    ) == value_of(old(self).leases(), n))
            }),
    {
        match sanitize_secret_name(name) {
            Ok(_) => {},
            Err(e) => {
                return Err(e);
            },
        }
        let removed = match map_remove(&mut self.data.secrets, name) {
            Some(_) => true,
            None => false,
        };
        let _ = self.data.lease_manager.remove_lease(name);
        Ok(removed)
    }

    /// Parse `duration_str` and attach (or refresh) a lease on an
    /// existing secret. An unknown name is `NotFound`; a malformed
    /// duration, or one whose expiry instant is not representable, is
    /// a validation error. The caller persists afterwards.
    pub fn set_expiry(&mut self, name: &str, duration_str: &str, now: i64) -> (r: Result<
        (),
        VaultError,
    >)
        requires
            old(self).wf(),
        ensures
            final(self).wf(),
            final(self).key() == old(self).key(),
            final(self).created_at() == old(self).created_at(),
            final(self).version() == old(self).version(),
            final(self).secrets() == old(self).secrets(),
            r matches Err(_) ==> *final(self) == *old(self),
            !valid_secret_name(name@) ==> (r matches Err(e) && e == VaultError::Validation),
            valid_secret_name(name@) && !has_name(old(self).secrets(), name@) ==> (r matches Err(e)
                && e == VaultError::NotFound),
            valid_secret_name(name@) && has_name(old(self).secrets(), name@)
                && duration_secs_of(duration_str@) is None ==> (r matches Err(e) && e
                == VaultError::Validation),
            valid_secret_name(name@) && has_name(old(self).secrets(), name@)
                && duration_secs_of(duration_str@) is Some && i64::MIN <= now + duration_secs_of(
                duration_str@,
            )->Some_0 <= i64::MAX ==> (r is Ok && has_name(final(self).leases(), name@)
                && value_of(final(self).leases(), name@) == (Lease {
                expires_at: (now + duration_secs_of(duration_str@)->Some_0) as i64,
                created_at: now,
            })),
            r is Ok ==> ({
                &&& (forall|n: Seq<char>|
                    n != name@ ==> #[trigger] has_name(final(self).leases(), n) == has_name(
                        old(self).leases(),
                        n,
                    ))
                &&& (forall|n: Seq<char>|
                    n != name@ && has_name(old(self).leases(), n) ==> #[trigger] value_of(
                        final(self).leases(),
                        n,
                    ) == value_of(old(self).leases(), n))
            }),
    {
        let checked = match sanitize_secret_name(name) {
            Ok(s) => s,
            Err(e) => {
                return Err(e);
            },
        };
        match map_find(&self.data.secrets, name) {
            Some(_) => {},
            None => {
                return Err(VaultError::NotFound);
            },
        }
        let duration_secs = match parse_duration(duration_str) {
            Ok(d) => d,
            Err(e) => {
                return Err(e);
            },
        };
        match now.checked_add(duration_secs) {
            Some(_) => {},
            None => {
                return Err(VaultError::Validation);
            },
        }
        self.data.lease_manager.add_lease(checked, now, duration_secs);
        Ok(())
    }

    /// Snapshot the aggregate together with the stored password
    /// verifier for export.
    pub fn create_backup(&self, identity_hash: &str, now: i64) -> (r: BackupData)
        ensures
            r.identity_hash@ == identity_hash@,
            r.created_at == now,
            r.version@ == schema_version(),
            self.wf() ==> r.vault_data.wf(),
            r.vault_data.secrets@.len() == self.secrets().len(),
            forall|i: int|
                0 <= i < self.secrets().len() ==> (#[trigger] r.vault_data.secrets@[i]).0@
                    == self.secrets()[i].0@ && entry_like(
                    r.vault_data.secrets@[i].1,
                    self.secrets()[i].1,
                ),
            r.vault_data.lease_manager@ == self.leases(),
            r.vault_data.created_at == self.created_at(),
            r.vault_data.version@ == self.version(),
    {
        BackupData {
            vault_data: self.data.duplicate(),
            identity_hash: identity_hash.to_owned(),
            created_at: now,
            version: version_string(),
        }
    }

    /// Counters over the vault: its secrets, its active and expired
    /// leases, and the persisted size the caller measured.
    pub fn get_stats(&self, vault_size: u64, now: i64) -> (r: VaultStats)
        ensures
            r.total_secrets == self.secrets().len(),
            r.active_leases as int == self.leases().len() - expired_count_from(
                self.leases(),
                now,
                0,
            ),
            r.expired_secrets as int == expired_count_from(self.leases(), now, 0),
            r.vault_size == vault_size,
    {
        VaultStats {
            total_secrets: self.data.secrets.len(),
            active_leases: self.data.lease_manager.active_leases_count(now),
            expired_secrets: self.data.lease_manager.expired_leases_count(now),
            vault_size,
        }
    }
}

/// Sort rows by name with insertion sort. The rows come back in
/// strictly ascending name order and are, as a multiset, exactly the
/// rows that went in.
#[verifier::rlimit(100)]
fn sort_pairs(v: Vec<(String, Option<i64>)>) -> (out: Vec<(String, Option<i64>)>)
    requires
        names_unique(v@),
    ensures
        names_sorted(out@),
        out@.to_multiset() == v@.to_multiset(),
{
    broadcast use vstd::seq_lib::group_to_multiset_ensures;

    let mut out: Vec<(String, Option<i64>)> = Vec::new();
    let len = v.len();
    let mut i: usize = 0;
    while i < len
        invariant
            len == v@.len(),
            i <= len,
            names_unique(v@),
            names_sorted(out@),
            out@.to_multiset() == v@.take(i as int).to_multiset(),
        decreases len - i,
    {
        let mut pos: usize = 0;
        while pos < out.len() && str_lt(out[pos].0.as_str(), v[i].0.as_str())
            invariant
                i < len == v@.len(),
                pos <= out@.len(),
                forall|p: int| 0 <= p < pos ==> lex_lt((#[trigger] out@[p]).0@, v@[i as int].0@),
            decreases out@.len() - pos,
        {
            pos += 1;
        }
        proof {
            broadcast use vstd::seq_lib::group_to_multiset_ensures;

            if pos < out@.len() {
                assert(out@.contains(out@[pos as int]));
                assert(out@.to_multiset().count(out@[pos as int]) > 0);
                assert(v@.take(i as int).to_multiset().count(out@[pos as int]) > 0);
                assert(v@.take(i as int).contains(out@[pos as int]));
                let k = choose|k: int|
                    0 <= k < v@.take(i as int).len() && v@.take(i as int)[k] == out@[pos as int];
                assert(v@[k] == out@[pos as int]);
                assert(v@[k].0@ != v@[i as int].0@);
                lemma_lex_total(out@[pos as int].0@, v@[i as int].0@);
                assert(lex_lt(v@[i as int].0@, out@[pos as int].0@));
            }
        }
        let ghost out0 = out@;
        let pair = (v[i].0.clone(), v[i].1);
        assert(pair == v@[i as int]);
        out.insert(pos, pair);
        proof {
            broadcast use vstd::seq_lib::group_to_multiset_ensures;

            lemma_sorted_insert(out0, pos as int, pair);
            lemma_insert_to_multiset(out0, pos as int, pair);
            assert(v@.take(i + 1) =~= v@.take(i as int).push(v@[i as int]));
            assert(v@.take(i as int).push(v@[i as int]).to_multiset() =~= v@.take(
                i as int,
            ).to_multiset().insert(v@[i as int]));
            assert(out@.to_multiset() =~= v@.take(i + 1).to_multiset());
        }
        i += 1;
    }
    proof {
        assert(v@.take(len as int) =~= v@);
    }
    out
}

/// Inserting anywhere in a list adds the element to its multiset.
proof fn lemma_insert_to_multiset(
    s: Seq<(String, Option<i64>)>,
    pos: int,
    x: (String, Option<i64>),
)
    requires
        0 <= pos <= s.len(),
    ensures
        s.insert(pos, x).to_multiset() =~= s.to_multiset().insert(x),
{
    broadcast use vstd::seq_lib::group_to_multiset_ensures;

    let a = s.subrange(0, pos);
    let b = s.subrange(pos, s.len() as int);
    assert(s =~= a + b);
    vstd::seq_lib::lemma_multiset_commutative(a, b);
    assert(s.insert(pos, x) == a.push(x) + b);
    vstd::seq_lib::lemma_multiset_commutative(a.push(x), b);
    assert(a.push(x).to_multiset() =~= a.to_multiset().insert(x));
}

/// Inserting a row between everything below it and everything above
/// it keeps the list sorted.
proof fn lemma_sorted_insert(s: Seq<(String, Option<i64>)>, pos: int, pair: (String, Option<i64>))
    requires
        0 <= pos <= s.len(),
        names_sorted(s),
        forall|p: int| 0 <= p < pos ==> lex_lt((#[trigger] s[p]).0@, pair.0@),
        pos < s.len() ==> lex_lt(pair.0@, s[pos].0@),
    ensures
        names_sorted(s.insert(pos, pair)),
{
    let t = s.insert(pos, pair);
    s.insert_ensures(pos, pair);
    assert forall|p: int, q: int|
        #![trigger t[p], t[q]]
        0 <= p < q < t.len() implies lex_lt(t[p].0@, t[q].0@) by {
        if q < pos {
            assert(t[p] == s[p] && t[q] == s[q]);
        } else if q == pos {
            assert(t[p] == s[p]);
            assert(lex_lt(s[p].0@, pair.0@));
        } else if p == pos {
            assert(t[q] == s[q - 1]);
            assert(pos < s.len());
            if q - 1 == pos {
                assert(lex_lt(pair.0@, s[pos].0@));
            } else {
                assert(lex_lt(s[pos].0@, s[q - 1].0@));
                lemma_lex_trans(pair.0@, s[pos].0@, s[q - 1].0@);
            }
        } else if p < pos {
            assert(t[p] == s[p] && t[q] == s[q - 1]);
            if p == q - 1 {
                assert(false);
            } else {
                assert(lex_lt(s[p].0@, s[q - 1].0@));
            }
        } else {
            assert(t[p] == s[p - 1] && t[q] == s[q - 1]);
            assert(lex_lt(s[p - 1].0@, s[q - 1].0@));
        }
    }
}

} // verus!