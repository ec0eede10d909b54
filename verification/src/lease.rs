//! Per-secret expiry: leases and the lease manager.
//!
//! Time is represented as whole seconds since the Unix epoch and is
//! always passed in by the caller, so expiry is a pure predicate:
//! nothing here reads a clock. A lease may reference a name with no
//! corresponding secret entry; that is tolerated, not corruption.

use vstd::prelude::*;
use vstd::string::{StrSliceExecFns, StringExecFns};

use crate::errors::VaultError;
use crate::namemap::{has_name, lemma_name_lookup, lemma_push_value, lemma_remove_keeps_others,
    lemma_update_value, names_all_unique, names_unique, value_of};
use crate::utils::{eq_lower, lower_chars, secure_compare};

verus! {

/// A validity window: expired once the current time passes `expires_at`.
#[derive(Debug, Clone, Copy, PartialEq, Eq, Structural)]
pub struct Lease {
    pub expires_at: i64,
    pub created_at: i64,
}

impl Lease {
    /// A lease starting at `now` and lasting `duration_secs` seconds
    /// (negative durations give a lease that is already expired).
    pub fn new(now: i64, duration_secs: i64) -> (r: Self)
        requires
            i64::MIN <= now + duration_secs <= i64::MAX,
        ensures
            r.created_at == now,
            r.expires_at == now + duration_secs,
    {
        Lease { expires_at: now + duration_secs, created_at: now }
    }

    /// Whether the lease is expired at instant `now`.
    pub open spec fn spec_is_expired(&self, now: i64) -> bool {
        now > self.expires_at
    }

    /// Expiry is strict: the lease is still valid at `expires_at`
    /// itself.
    pub fn is_expired(&self, now: i64) -> (r: bool)
        ensures
            r == self.spec_is_expired(now),
    {
        now > self.expires_at
    }

    /// The seconds left until expiry, if any.
    pub fn time_remaining(&self, now: i64) -> (r: Option<i64>)
        requires
            now < self.expires_at ==> self.expires_at - now <= i64::MAX,
        ensures
            now < self.expires_at ==> r == Some((self.expires_at - now) as i64),
            now >= self.expires_at ==> r is None,
    {
        if now < self.expires_at {
            Some(self.expires_at - now)
        } else {
            None
        }
    }
}

/// How many entries of `s`, from position `i` on, are expired at `now`.
pub open spec fn expired_count_from(s: Seq<(String, Lease)>, now: i64, i: int) -> int
    decreases s.len() - i,
{
    if i < 0 || i >= s.len() {
        0
    } else {
        (if s[i].1.spec_is_expired(now) {
            1int
        } else {
            0int
        }) + expired_count_from(s, now, i + 1)
    }
}

/// The mapping from secret names to leases.
///
/// Stored as a list of pairs with pairwise-distinct names; lookups are
/// linear scans.
#[derive(Debug)]
pub struct LeaseManager {
    entries: Vec<(String, Lease)>,
}

impl View for LeaseManager {
    type V = Seq<(String, Lease)>;

    closed spec fn view(&self) -> Seq<(String, Lease)> {
        self.entries@
    }
}

impl LeaseManager {
    /// Names are pairwise distinct.
    pub open spec fn wf(&self) -> bool {
        names_unique(self@)
    }

    pub fn new() -> (r: Self)
        ensures
            r.wf(),
            r@.len() == 0,
    {
        LeaseManager { entries: Vec::new() }
    }

    /// The position of `name`, if present.
    fn find(&self, name: &str) -> (r: Option<usize>)
        requires
            self.wf(),
        ensures
            r matches Some(i) ==> i < self@.len() && self@[i as int].0@ == name@,
            r is None ==> !has_name(self@, name@),
    {
        let n = self.entries.len();
        let mut i: usize = 0;
        while i < n
            invariant
                n == self@.len(),
                i <= n,
                forall|k: int| 0 <= k < i ==> self@[k].0@ != name@,
            decreases n - i,
        {
            if secure_compare(self.entries[i].0.as_str(), name) {
                return Some(i);
            }
            i += 1;
        }
        None
    }

    /// Insert a lease for `secret_name` starting at `now`, overwriting
    /// any lease the name already carries.
    pub fn add_lease(&mut self, secret_name: String, now: i64, duration_secs: i64)
        requires
            old(self).wf(),
            i64::MIN <= now + duration_secs <= i64::MAX,
        ensures
            final(self).wf(),
            has_name(final(self)@, secret_name@),
            value_of(final(self)@, secret_name@) == (Lease {
                expires_at: (now + duration_secs) as i64,
                created_at: now,
            }),
            forall|n: Seq<char>|
                n != secret_name@ ==> #[trigger] has_name(final(self)@, n) == has_name(
                    old(self)@,
                    n,
                ),
            forall|n: Seq<char>|
                n != secret_name@ && has_name(old(self)@, n) ==> #[trigger] value_of(
                    final(self)@,
                    n,
                ) == value_of(old(self)@, n),
    {
        let lease = Lease::new(now, duration_secs);
        let found = self.find(secret_name.as_str());
        match found {
            Some(i) => {
                proof {
                    lemma_update_value(self@, i as int, (secret_name, lease));
                }
                vstd::pervasive::VecAdditionalExecFns::set(
                    &mut self.entries,
                    i,
                    (secret_name, lease),
                );
            },
            None => {
                proof {
                    lemma_push_value(self@, (secret_name, lease));
                }
                self.entries.push((secret_name, lease));
            },
        }
    }

    /// Rebuild a manager from plain entries, as read back from
    /// storage. A duplicated name is a corrupt record.
    pub fn from_entries(entries: Vec<(String, Lease)>) -> (r: Result<LeaseManager, VaultError>)
        ensures
            r matches Ok(m) ==> m.wf() && m@ == entries@,
            r matches Err(e) ==> e == VaultError::CorruptVault,
            names_unique(entries@) ==> r is Ok,
    {
        if names_all_unique(&entries) {
            Ok(LeaseManager { entries })
        } else {
            Err(VaultError::CorruptVault)
        }
    }

    /// The entries as plain pairs, for serialization.
    pub fn entries(&self) -> (r: &Vec<(String, Lease)>)
        ensures
            r@ == self@,
    {
        &self.entries
    }

    /// A copy with the same entries.
    pub fn duplicate(&self) -> (r: Self)
        ensures
            r@ == self@,
    {
        let mut entries: Vec<(String, Lease)> = Vec::new();
        let len = self.entries.len();
        let mut i: usize = 0;
        while i < len
            invariant
                len == self@.len(),
                i <= len,
                entries@ == self@.subrange(0, i as int),
            decreases len - i,
        {
            entries.push((self.entries[i].0.clone(), self.entries[i].1));
            assert(entries@ =~= self@.subrange(0, i + 1));
            i += 1;
        }
        assert(entries@ =~= self@);
        LeaseManager { entries }
    }

    /// The lease for `secret_name`, if any.
    pub fn get_lease(&self, secret_name: &str) -> (r: Option<Lease>)
        requires
            self.wf(),
        ensures
            r is Some <==> has_name(self@, secret_name@),
            r matches Some(l) ==> l == value_of(self@, secret_name@),
    {
        match self.find(secret_name) {
            Some(i) => {
                proof {
                    lemma_name_lookup(self@, i as int);
                }
                Some(self.entries[i].1)
            },
            None => None,
        }
    }

    /// Remove the lease for `secret_name`, returning it if it existed.
    pub fn remove_lease(&mut self, secret_name: &str) -> (r: Option<Lease>)
        requires
            old(self).wf(),
        ensures
            final(self).wf(),
            r is Some <==> has_name(old(self)@, secret_name@),
            r matches Some(l) ==> l == value_of(old(self)@, secret_name@),
            !has_name(final(self)@, secret_name@),
            forall|n: Seq<char>|
                n != secret_name@ ==> #[trigger] has_name(final(self)@, n) == has_name(
                    old(self)@,
                    n,
                ),
            forall|n: Seq<char>|
                n != secret_name@ && has_name(old(self)@, n) ==> #[trigger] value_of(
                    final(self)@,
                    n,
                ) == value_of(old(self)@, n),
    {
        let found = self.find(secret_name);
        match found {
            Some(i) => {
                proof {
                    lemma_name_lookup(old(self)@, i as int);
                }
                let (_, lease) = self.entries.remove(i);
                proof {
                    lemma_remove_keeps_others(old(self)@, i as int);
                }
                Some(lease)
            },
            None => None,
        }
    }
}

impl LeaseManager {
    /// The names whose leases are expired at `now`, each exactly once,
    /// in no promised order.
    pub fn get_expired_secrets(&self, now: i64) -> (r: Vec<String>)
        requires
            self.wf(),
        ensures
            forall|p: int|
                0 <= p < r@.len() ==> has_name(self@, #[trigger] r@[p]@) && value_of(
                    self@,
                    r@[p]@,
                ).spec_is_expired(now),
            forall|n: Seq<char>|
                #[trigger] has_name(self@, n) && value_of(self@, n).spec_is_expired(now)
                    ==> exists|p: int| 0 <= p < r@.len() && r@[p]@ == n,
            forall|p: int, q: int| #![trigger r@[p], r@[q]] 0 <= p < q < r@.len() ==> r@[p]@ != r@[q]@,
    {
        let mut out: Vec<String> = Vec::new();
        let len = self.entries.len();
        let mut i: usize = 0;
        while i < len
            invariant
                self.wf(),
                len == self@.len(),
                i <= len,
                forall|p: int|
                    0 <= p < out@.len() ==> exists|k: int|
                        0 <= k < i && self@[k].0@ == #[trigger] out@[p]@,
                forall|p: int|
                    0 <= p < out@.len() ==> has_name(self@, #[trigger] out@[p]@) && value_of(
                        self@,
                        out@[p]@,
                    ).spec_is_expired(now),
                forall|k: int|
                    0 <= k < i && (#[trigger] self@[k].1).spec_is_expired(now) ==> exists|p: int|
                        0 <= p < out@.len() && out@[p]@ == self@[k].0@,
                forall|p: int, q: int| #![trigger out@[p], out@[q]] 0 <= p < q < out@.len() ==> out@[p]@ != out@[q]@,
            decreases len - i,
        {
            if self.entries[i].1.is_expired(now) {
                proof {
                    lemma_name_lookup(self@, i as int);
                }
                let ghost out0 = out@;
                out.push(self.entries[i].0.clone());
                proof {
                    assert forall|k: int|
                        0 <= k < i + 1 && (#[trigger] self@[k].1).spec_is_expired(
                            now,
                        ) implies exists|p: int| 0 <= p < out@.len() && out@[p]@ == self@[k].0@ by {
                        if k < i as int {
                            let p0 = choose|p: int|
                                0 <= p < out0.len() && out0[p]@ == self@[k].0@;
                            assert(out@[p0]@ == self@[k].0@);
                        } else {
                            assert(out@[out@.len() - 1]@ == self@[k].0@);
                        }
                    }
                }
            }
            i += 1;
        }
        proof {
            assert forall|n: Seq<char>|
                #[trigger] has_name(self@, n) && value_of(self@, n).spec_is_expired(
                    now,
                ) implies exists|p: int| 0 <= p < out@.len() && out@[p]@ == n by {
                let k = choose|k: int| 0 <= k < self@.len() && self@[k].0@ == n;
                lemma_name_lookup(self@, k);
            }
        }
        out
    }

    /// Remove every lease expired at `now` and return the removed
    /// names, each exactly once, in no promised order; every other
    /// lease is kept unchanged.
    pub fn cleanup_expired(&mut self, now: i64) -> (r: Vec<String>)
        requires
            old(self).wf(),
        ensures
            final(self).wf(),
            forall|n: Seq<char>|
                #[trigger] has_name(final(self)@, n) <==> has_name(old(self)@, n) && !value_of(
                    old(self)@,
                    n,
                ).spec_is_expired(now),
            forall|n: Seq<char>|
                #[trigger] has_name(final(self)@, n) ==> value_of(final(self)@, n) == value_of(
                    old(self)@,
                    n,
                ),
            forall|p: int|
                0 <= p < r@.len() ==> has_name(old(self)@, #[trigger] r@[p]@) && value_of(
                    old(self)@,
                    r@[p]@,
                ).spec_is_expired(now),
            forall|n: Seq<char>|
                #[trigger] has_name(old(self)@, n) && value_of(old(self)@, n).spec_is_expired(now)
                    ==> exists|p: int| 0 <= p < r@.len() && r@[p]@ == n,
            forall|p: int, q: int| #![trigger r@[p], r@[q]] 0 <= p < q < r@.len() ==> r@[p]@ != r@[q]@,
    {
        let expired = self.get_expired_secrets(now);
        let total = expired.len();
        let mut j: usize = 0;
        while j < total
            invariant
                self.wf(),
                total == expired@.len(),
                j <= total,
                forall|p: int|
                    0 <= p < expired@.len() ==> has_name(old(self)@, #[trigger] expired@[p]@)
                        && value_of(old(self)@, expired@[p]@).spec_is_expired(now),
                forall|n: Seq<char>|
                    #[trigger] has_name(old(self)@, n) && value_of(old(self)@, n).spec_is_expired(
                        now,
                    ) ==> exists|p: int| 0 <= p < expired@.len() && expired@[p]@ == n,
                forall|p: int, q: int|
                    #![trigger expired@[p], expired@[q]]
                    0 <= p < q < expired@.len() ==> expired@[p]@ != expired@[q]@,
                forall|n: Seq<char>|
                    #[trigger] has_name(self@, n) <==> has_name(old(self)@, n) && !(exists|p: int|
                        0 <= p < j && expired@[p]@ == n),
                forall|n: Seq<char>|
                    #[trigger] has_name(self@, n) ==> value_of(self@, n) == value_of(
                        old(self)@,
                        n,
                    ),
            decreases total - j,
        {
            self.remove_lease(expired[j].as_str());
            j += 1;
        }
        expired
    }

    /// How many leases are not yet expired at `now`.
    pub fn active_leases_count(&self, now: i64) -> (r: usize)
        ensures
            r as int == self@.len() - expired_count_from(self@, now, 0),
    {
        proof {
            lemma_expired_count_bounds(self@, now, 0);
        }
        self.entries.len() - self.expired_leases_count(now)
    }

    /// How many leases are expired at `now`.
    pub fn expired_leases_count(&self, now: i64) -> (r: usize)
        ensures
            r as int == expired_count_from(self@, now, 0),
    {
        let len = self.entries.len();
        let mut count: usize = 0;
        let mut i: usize = 0;
        while i < len
            invariant
                len == self@.len(),
                i <= len,
                count <= i,
                count as int + expired_count_from(self@, now, i as int) == expired_count_from(
                    self@,
                    now,
                    0,
                ),
            decreases len - i,
        {
            if self.entries[i].1.is_expired(now) {
                count += 1;
            }
            i += 1;
        }
        count
    }

    /// The `(name, lease)` pairs not yet expired at `now`, each name
    /// exactly once, in no promised order.
    pub fn list_active_leases(&self, now: i64) -> (r: Vec<(String, Lease)>)
        requires
            self.wf(),
        ensures
            forall|p: int|
                0 <= p < r@.len() ==> has_name(self@, (#[trigger] r@[p]).0@) && value_of(
                    self@,
                    r@[p].0@,
                ) == r@[p].1 && !r@[p].1.spec_is_expired(now),
            forall|n: Seq<char>|
                #[trigger] has_name(self@, n) && !value_of(self@, n).spec_is_expired(now)
                    ==> exists|p: int| 0 <= p < r@.len() && r@[p].0@ == n,
            forall|p: int, q: int| #![trigger r@[p], r@[q]] 0 <= p < q < r@.len() ==> r@[p].0@ != r@[q].0@,
    {
        let mut out: Vec<(String, Lease)> = Vec::new();
        let len = self.entries.len();
        let mut i: usize = 0;
        while i < len
            invariant
                self.wf(),
                len == self@.len(),
                i <= len,
                forall|p: int|
                    0 <= p < out@.len() ==> exists|k: int|
                        0 <= k < i && self@[k].0@ == (#[trigger] out@[p]).0@,
                forall|p: int|
                    0 <= p < out@.len() ==> has_name(self@, (#[trigger] out@[p]).0@) && value_of(
                        self@,
                        out@[p].0@,
                    ) == out@[p].1 && !out@[p].1.spec_is_expired(now),
                forall|k: int|
                    0 <= k < i && !(#[trigger] self@[k].1).spec_is_expired(now) ==> exists|p: int|
                        0 <= p < out@.len() && out@[p].0@ == self@[k].0@,
                forall|p: int, q: int|
                    #![trigger out@[p], out@[q]]
                    0 <= p < q < out@.len() ==> out@[p].0@ != out@[q].0@,
            decreases len - i,
        {
            if !self.entries[i].1.is_expired(now) {
                proof {
                    lemma_name_lookup(self@, i as int);
                }
                let ghost out0 = out@;
                out.push((self.entries[i].0.clone(), self.entries[i].1));
                proof {
                    assert forall|k: int|
                        0 <= k < i + 1 && !(#[trigger] self@[k].1).spec_is_expired(
                            now,
                        ) implies exists|p: int| 0 <= p < out@.len() && out@[p].0@ == self@[k].0@ by {
                        if k < i as int {
                            let p0 = choose|p: int|
                                0 <= p < out0.len() && out0[p].0@ == self@[k].0@;
                            assert(out@[p0].0@ == self@[k].0@);
                        } else {
                            assert(out@[out@.len() - 1].0@ == self@[k].0@);
                        }
                    }
                }
            }
            i += 1;
        }
        proof {
            assert forall|n: Seq<char>|
                #[trigger] has_name(self@, n) && !value_of(self@, n).spec_is_expired(
                    now,
                ) implies exists|p: int| 0 <= p < out@.len() && out@[p].0@ == n by {
                let k = choose|k: int| 0 <= k < self@.len() && self@[k].0@ == n;
                lemma_name_lookup(self@, k);
            }
        }
        out
    }
}

/// The expired count is between 0 and the number of entries from `i`
/// on.
proof fn lemma_expired_count_bounds(s: Seq<(String, Lease)>, now: i64, i: int)
    requires
        0 <= i <= s.len(),
    ensures
        0 <= expired_count_from(s, now, i) <= s.len() - i,
    decreases s.len() - i,
{
    if i < s.len() {
        lemma_expired_count_bounds(s, now, i + 1);
    }
}

/// Whether `c` is a decimal digit.
pub open spec fn is_digit_char(c: char) -> bool {
    48 <= c as u32 && c as u32 <= 57
}

/// The value of a decimal digit.
pub open spec fn digit_val(c: char) -> int {
    c as u32 - 48
}

/// The value of a digit string, most significant digit first.
pub open spec fn digits_val(s: Seq<char>) -> int
    decreases s.len(),
{
    if s.len() == 0 {
        0
    } else {
        digits_val(s.drop_last()) * 10 + digit_val(s.last())
    }
}

/// How many leading characters of `s` are digits.
pub open spec fn digit_prefix_len(s: Seq<char>) -> int
    decreases s.len(),
{
    if s.len() == 0 || !is_digit_char(s[0]) {
        0
    } else {
        1 + digit_prefix_len(s.drop_first())
    }
}

/// The seconds per unit, for a recognized (already lower-cased) unit
/// name.
pub open spec fn unit_secs(u: Seq<char>) -> Option<int> {
    if u == "s"@ || u == "sec"@ || u == "seconds"@ {
        Some(1)
    } else if u == "m"@ || u == "min"@ || u == "minutes"@ {
        Some(60)
    } else if u == "h"@ || u == "hour"@ || u == "hours"@ {
        Some(3600)
    } else if u == "d"@ || u == "day"@ || u == "days"@ {
        Some(86400)
    } else if u == "w"@ || u == "week"@ || u == "weeks"@ {
        Some(604800)
    } else {
        None
    }
}

/// The duration grammar: a nonempty run of digits followed by a unit,
/// case-insensitive; the magnitude must be at least one and the total
/// seconds must be representable. Everything else is rejected.
pub open spec fn duration_secs_of(s: Seq<char>) -> Option<int> {
    let k = digit_prefix_len(s);
    if k == 0 || k == s.len() {
        None
    } else {
        match unit_secs(lower_chars(s.subrange(k, s.len() as int))) {
            None => None,
            Some(u) => {
                let n = digits_val(s.take(k));
                if n >= 1 && n * u <= i64::MAX {
                    Some(n * u)
                } else {
                    None
                }
            },
        }
    }
}

/// The digit prefix length is the unique split point: all digits
/// before it, a non-digit (or the end) at it.
proof fn lemma_digit_prefix_len_at(s: Seq<char>, k: int)
    requires
        0 <= k <= s.len(),
        forall|j: int| 0 <= j < k ==> is_digit_char(#[trigger] s[j]),
        k == s.len() || !is_digit_char(s[k]),
    ensures
        digit_prefix_len(s) == k,
    decreases s.len(),
{
    if s.len() != 0 && k != 0 {
        let t = s.drop_first();
        assert(forall|j: int| 0 <= j < k - 1 ==> #[trigger] t[j] == s[j + 1]);
        lemma_digit_prefix_len_at(t, k - 1);
    }
}

/// All digit-string values are nonnegative.
proof fn lemma_digits_val_nonneg(s: Seq<char>)
    requires
        forall|j: int| 0 <= j < s.len() ==> is_digit_char(#[trigger] s[j]),
    ensures
        digits_val(s) >= 0,
    decreases s.len(),
{
    if s.len() > 0 {
        lemma_digits_val_nonneg(s.drop_last());
    }
}

/// Appending one digit multiplies the value by ten and adds it.
proof fn lemma_digits_val_step(s: Seq<char>, j: int)
    requires
        0 <= j < s.len(),
    ensures
        digits_val(s.take(j + 1)) == digits_val(s.take(j)) * 10 + digit_val(s[j]),
{
    let t = s.take(j + 1);
    assert(t.drop_last() =~= s.take(j));
    assert(t.last() == s[j]);
}

/// A digit string's value only grows as more digits are taken.
proof fn lemma_digits_val_take_mono(s: Seq<char>, j: int, k: int)
    requires
        0 <= j <= k <= s.len(),
        forall|p: int| 0 <= p < k ==> is_digit_char(#[trigger] s[p]),
    ensures
        digits_val(s.take(j)) <= digits_val(s.take(k)),
    decreases k - j,
{
    if j < k {
        lemma_digits_val_take_mono(s, j, k - 1);
        lemma_digits_val_step(s, k - 1);
        assert(forall|p: int| 0 <= p < k - 1 ==> #[trigger] s.take(k - 1)[p] == s[p]);
        lemma_digits_val_nonneg(s.take(k - 1));
    }
}

/// How many leading characters of `s` are digits.
fn digit_prefix(s: &str) -> (k: usize)
    ensures
        k as int == digit_prefix_len(s@),
        k <= s@.len(),
        forall|j: int| 0 <= j < k ==> is_digit_char(#[trigger] s@[j]),
{
    let n = s.unicode_len();
    let mut i: usize = 0;
    while i < n
        invariant
            n == s@.len(),
            i <= n,
            forall|j: int| 0 <= j < i ==> is_digit_char(#[trigger] s@[j]),
        decreases n - i,
    {
        let c = s.get_char(i);
        let u = c as u32;
        if !(48 <= u && u <= 57) {
            proof {
                lemma_digit_prefix_len_at(s@, i as int);
            }
            return i;
        }
        i += 1;
    }
    proof {
        lemma_digit_prefix_len_at(s@, n as int);
    }
    n
}

/// Parse a duration of the form `<positive integer><unit>` into whole
/// seconds, the unit being one of `s`, `sec`, `seconds`, `m`, `min`,
/// `minutes`, `h`, `hour`, `hours`, `d`, `day`, `days`, `w`, `week`
/// or `weeks`, case-insensitive. Empty input, a missing or unknown
/// unit, a non-positive or non-integer magnitude, and a total that
/// does not fit in 64-bit seconds are all rejected. The grammar is
/// exact: surrounding whitespace is not accepted either.
pub fn parse_duration(duration_str: &str) -> (r: Result<i64, VaultError>)
    ensures
        r matches Ok(d) ==> duration_secs_of(duration_str@) == Some(d as int),
        r matches Err(e) ==> e == VaultError::Validation && duration_secs_of(
            duration_str@,
        ) is None,
        duration_secs_of(duration_str@) is Some ==> r is Ok,
{
    let ghost s = duration_str@;
    let len = duration_str.unicode_len();
    let k = digit_prefix(duration_str);
    if k == 0 || k == len {
        return Err(VaultError::Validation);
    }
    let ghost unit_chars = lower_chars(s.subrange(k as int, s.len() as int));
    proof {
        assert(unit_secs(unit_chars) matches Some(u) ==> u >= 1);
    }
    let mut acc: i64 = 0;
    let mut i: usize = 0;
    while i < k
        invariant
            k as int == digit_prefix_len(s),
            0 < k < len,
            len == s.len(),
            s == duration_str@,
            forall|j: int| 0 <= j < k ==> is_digit_char(#[trigger] s[j]),
            i <= k,
            0 <= acc,
            acc as int == digits_val(s.take(i as int)),
            unit_chars == lower_chars(s.subrange(k as int, s.len() as int)),
        decreases k - i,
    {
        let c = duration_str.get_char(i);
        let u = c as u32;
        let d: i64 = (u - 48) as i64;
        proof {
            lemma_digits_val_step(s, i as int);
        }
        let shifted = match acc.checked_mul(10) {
            Some(x) => x,
            None => {
                proof {
                    lemma_overflow_rejected(s, k as int, i as int, acc as int * 10 + d);
                }
                return Err(VaultError::Validation);
            },
        };
        acc = match shifted.checked_add(d) {
            Some(y) => y,
            None => {
                proof {
                    lemma_overflow_rejected(s, k as int, i as int, acc as int * 10 + d);
                }
                return Err(VaultError::Validation);
            },
        };
        i += 1;
    }
    if acc <= 0 {
        return Err(VaultError::Validation);
    }
    let unit = duration_str.substring_char(k, len);
    assert(unit@ == s.subrange(k as int, s.len() as int));
    let secs: i64 = if eq_lower(unit, "s") || eq_lower(unit, "sec") || eq_lower(unit, "seconds") {
        1
    } else if eq_lower(unit, "m") || eq_lower(unit, "min") || eq_lower(unit, "minutes") {
        60
    } else if eq_lower(unit, "h") || eq_lower(unit, "hour") || eq_lower(unit, "hours") {
        3600
    } else if eq_lower(unit, "d") || eq_lower(unit, "day") || eq_lower(unit, "days") {
        86400
    } else if eq_lower(unit, "w") || eq_lower(unit, "week") || eq_lower(unit, "weeks") {
        604800
    } else {
        return Err(VaultError::Validation);
    };
    assert(unit_secs(unit_chars) == Some(secs as int));
    match acc.checked_mul(secs) {
        Some(total) => Ok(total),
        None => Err(VaultError::Validation),
    }
}

/// Once the accumulated digit value overflows the representable range,
/// the whole duration is rejected: the full magnitude is at least the
/// overflowing prefix, and the unit only scales it up.
proof fn lemma_overflow_rejected(s: Seq<char>, k: int, i: int, over: int)
    requires
        0 < k < s.len(),
        k == digit_prefix_len(s),
        forall|j: int| 0 <= j < k ==> is_digit_char(#[trigger] s[j]),
        0 <= i < k,
        over == digits_val(s.take(i + 1)),
        over > i64::MAX,
    ensures
        duration_secs_of(s) is None,
{
    lemma_digits_val_take_mono(s, i + 1, k);
    let n = digits_val(s.take(k));
    assert(n > i64::MAX);
    match unit_secs(lower_chars(s.subrange(k, s.len() as int))) {
        Some(u) => {
            assert(u >= 1);
            assert(n * u >= n) by (nonlinear_arith)
                requires
                    n >= 0,
                    u >= 1,
            ;
        },
        None => {},
    }
}

/// Lease semantics: a lease built with a negative duration is expired
/// already at its creation instant; one with a nonnegative duration is
/// valid at every instant up to `expires_at` and expired at every
/// later instant.
pub proof fn lemma_lease_expiry(now: i64, duration_secs: i64, l: Lease, t: i64)
    requires
        i64::MIN <= now + duration_secs <= i64::MAX,
        l.created_at == now,
        l.expires_at == now + duration_secs,
    ensures
        duration_secs < 0 ==> l.spec_is_expired(now),
        duration_secs >= 0 && t <= now + duration_secs ==> !l.spec_is_expired(t),
        t > now + duration_secs ==> l.spec_is_expired(t),
{
}

} // verus!
