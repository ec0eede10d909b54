//! Association lists keyed by secret name.
//!
//! Both the lease table and the secret table are lists of
//! `(String, value)` pairs whose names are pairwise distinct; lookups
//! are linear scans. The spec functions here give such a list its map
//! reading, and the lemmas relate that reading to positional edits.

use vstd::pervasive::VecAdditionalExecFns;
use vstd::prelude::*;

use crate::utils::secure_compare;

verus! {

/// Whether some entry of `s` carries `name`.
pub open spec fn has_name<T>(s: Seq<(String, T)>, name: Seq<char>) -> bool {
    exists|i: int| 0 <= i < s.len() && s[i].0@ == name
}

/// The value that `s` carries for `name` (meaningful only when
/// `has_name` holds and names are unique).
pub open spec fn value_of<T>(s: Seq<(String, T)>, name: Seq<char>) -> T {
    s[choose|i: int| 0 <= i < s.len() && s[i].0@ == name].1
}

/// Names are pairwise distinct.
pub open spec fn names_unique<T>(s: Seq<(String, T)>) -> bool {
    forall|i: int, j: int| 0 <= i < j < s.len() ==> #[trigger] s[i].0@ != #[trigger] s[j].0@
}

/// Names are in strictly ascending lexicographic order.
pub open spec fn names_sorted<T>(s: Seq<(String, T)>) -> bool {
    forall|i: int, j: int|
        #![trigger s[i], s[j]]
        0 <= i < j < s.len() ==> crate::utils::lex_lt(s[i].0@, s[j].0@)
}

/// Whether all names in `s` are pairwise distinct, decided by scanning.
pub fn names_all_unique<T>(s: &Vec<(String, T)>) -> (b: bool)
    ensures
        b == names_unique(s@),
{
    let n = s.len();
    let mut i: usize = 0;
    while i < n
        invariant
            i <= n,
            n == s@.len(),
            forall|p: int, q: int| 0 <= p < q < i ==> #[trigger] s@[p].0@ != #[trigger] s@[q].0@,
        decreases n - i,
    {
        let mut j: usize = 0;
        while j < i
            invariant
                j <= i < n,
                n == s@.len(),
                forall|p: int| 0 <= p < j ==> #[trigger] s@[p].0@ != s@[i as int].0@,
            decreases i - j,
        {
            if secure_compare(s[j].0.as_str(), s[i].0.as_str()) {
                return false;
            }
            j += 1;
        }
        i += 1;
    }
    true
}

/// The position of `name` in `s`, if present.
pub fn map_find<T>(s: &Vec<(String, T)>, name: &str) -> (r: Option<usize>)
    requires
        names_unique(s@),
    ensures
        r matches Some(i) ==> i < s@.len() && s@[i as int].0@ == name@,
        r is None ==> !has_name(s@, name@),
{
    let n = s.len();
    let mut i: usize = 0;
    while i < n
        invariant
            n == s@.len(),
            i <= n,
            forall|k: int| 0 <= k < i ==> s@[k].0@ != name@,
        decreases n - i,
    {
        if secure_compare(s[i].0.as_str(), name) {
            return Some(i);
        }
        i += 1;
    }
    None
}

/// Insert `value` under `name`, overwriting what the name already
/// carried.
pub fn map_insert<T>(s: &mut Vec<(String, T)>, name: String, value: T)
    requires
        names_unique(old(s)@),
    ensures
        names_unique(final(s)@),
        has_name(final(s)@, name@),
        value_of(final(s)@, name@) == value,
        forall|n: Seq<char>|
            n != name@ ==> #[trigger] has_name(final(s)@, n) == has_name(old(s)@, n),
        forall|n: Seq<char>|
            n != name@ && has_name(old(s)@, n) ==> #[trigger] value_of(final(s)@, n) == value_of(
                old(s)@,
                n,
            ),
{
    let found = map_find(s, name.as_str());
    match found {
        Some(i) => {
            proof {
                lemma_update_value(s@, i as int, (name, value));
            }
            s.set(i, (name, value));
        },
        None => {
            proof {
                lemma_push_value(s@, (name, value));
            }
            s.push((name, value));
        },
    }
}

/// Remove the entry under `name`, returning its value if it existed.
pub fn map_remove<T>(s: &mut Vec<(String, T)>, name: &str) -> (r: Option<T>)
    requires
        names_unique(old(s)@),
    ensures
        names_unique(final(s)@),
        r is Some <==> has_name(old(s)@, name@),
        r matches Some(v) ==> v == value_of(old(s)@, name@),
        !has_name(final(s)@, name@),
        forall|n: Seq<char>|
            n != name@ ==> #[trigger] has_name(final(s)@, n) == has_name(old(s)@, n),
        forall|n: Seq<char>|
            n != name@ && has_name(old(s)@, n) ==> #[trigger] value_of(final(s)@, n) == value_of(
                old(s)@,
                n,
            ),
{
    let found = map_find(s, name);
    match found {
        Some(i) => {
            proof {
                lemma_name_lookup(old(s)@, i as int);
            }
            let (_, value) = s.remove(i);
            proof {
                lemma_remove_keeps_others(old(s)@, i as int);
            }
            Some(value)
        },
        None => None,
    }
}

/// In a list with pairwise-distinct names, the witness of `has_name`
/// for the name at position `i` is `i` itself, so `value_of` reads that
/// position.
pub proof fn lemma_name_lookup<T>(s: Seq<(String, T)>, i: int)
    requires
        0 <= i < s.len(),
        names_unique(s),
    ensures
        has_name(s, s[i].0@),
        value_of(s, s[i].0@) == s[i].1,
{
    assert(has_name(s, s[i].0@));
    let j = choose|j: int| 0 <= j < s.len() && s[j].0@ == s[i].0@;
    if j < i {
        assert(s[j].0@ != s[i].0@);
    } else if i < j {
        assert(s[i].0@ != s[j].0@);
    }
}

/// Replacing the value at position `i` (keeping its name) changes the
/// map reading at that name alone.
pub proof fn lemma_update_value<T>(s: Seq<(String, T)>, i: int, v: (String, T))
    requires
        0 <= i < s.len(),
        names_unique(s),
        v.0@ == s[i].0@,
    ensures
        names_unique(s.update(i, v)),
        has_name(s.update(i, v), v.0@),
        value_of(s.update(i, v), v.0@) == v.1,
        forall|n: Seq<char>|
            n != v.0@ ==> #[trigger] has_name(s.update(i, v), n) == has_name(s, n),
        forall|n: Seq<char>|
            n != v.0@ && has_name(s, n) ==> #[trigger] value_of(s.update(i, v), n) == value_of(
                s,
                n,
            ),
{
    let t = s.update(i, v);
    assert(names_unique(t));
    lemma_name_lookup(t, i);
    assert forall|n: Seq<char>| n != v.0@ implies #[trigger] has_name(t, n) == has_name(s, n) by {
        if has_name(t, n) {
            let j = choose|j: int| 0 <= j < t.len() && t[j].0@ == n;
            assert(s[j].0@ == n);
        }
        if has_name(s, n) {
            let j = choose|j: int| 0 <= j < s.len() && s[j].0@ == n;
            assert(t[j].0@ == n);
        }
    }
    assert forall|n: Seq<char>| n != v.0@ && has_name(s, n) implies #[trigger] value_of(t, n)
        == value_of(s, n) by {
        let j = choose|j: int| 0 <= j < s.len() && s[j].0@ == n;
        assert(t[j].0@ == n);
        lemma_name_lookup(s, j);
        lemma_name_lookup(t, j);
    }
}

/// Appending an entry with a fresh name changes the map reading at
/// that name alone.
pub proof fn lemma_push_value<T>(s: Seq<(String, T)>, v: (String, T))
    requires
        names_unique(s),
        !has_name(s, v.0@),
    ensures
        names_unique(s.push(v)),
        has_name(s.push(v), v.0@),
        value_of(s.push(v), v.0@) == v.1,
        forall|n: Seq<char>| n != v.0@ ==> #[trigger] has_name(s.push(v), n) == has_name(s, n),
        forall|n: Seq<char>|
            n != v.0@ && has_name(s, n) ==> #[trigger] value_of(s.push(v), n) == value_of(s, n),
{
    let t = s.push(v);
    assert forall|i: int, j: int| 0 <= i < j < t.len() implies #[trigger] t[i].0@
        != #[trigger] t[j].0@ by {
        if j < s.len() {
            assert(s[i].0@ != s[j].0@);
        } else {
            assert(t[i] == s[i]);
            assert(!has_name(s, v.0@));
            if t[i].0@ == v.0@ {
                assert(has_name(s, v.0@));
            }
        }
    }
    lemma_name_lookup(t, t.len() - 1);
    assert forall|n: Seq<char>| n != v.0@ implies #[trigger] has_name(t, n) == has_name(s, n) by {
        if has_name(t, n) {
            let j = choose|j: int| 0 <= j < t.len() && t[j].0@ == n;
            assert(s[j].0@ == n);
        }
        if has_name(s, n) {
            let j = choose|j: int| 0 <= j < s.len() && s[j].0@ == n;
            assert(t[j].0@ == n);
        }
    }
    assert forall|n: Seq<char>| n != v.0@ && has_name(s, n) implies #[trigger] value_of(t, n)
        == value_of(s, n) by {
        let j = choose|j: int| 0 <= j < s.len() && s[j].0@ == n;
        assert(t[j].0@ == n);
        lemma_name_lookup(s, j);
        lemma_name_lookup(t, j);
    }
}

/// Removing position `i` from a list with pairwise-distinct names
/// keeps every other name with its value, and drops the removed one.
pub proof fn lemma_remove_keeps_others<T>(s: Seq<(String, T)>, i: int)
    requires
        0 <= i < s.len(),
        names_unique(s),
    ensures
        names_unique(s.remove(i)),
        !has_name(s.remove(i), s[i].0@),
        forall|n: Seq<char>| n != s[i].0@ ==> #[trigger] has_name(s.remove(i), n) == has_name(s, n),
        forall|n: Seq<char>|
            n != s[i].0@ && has_name(s, n) ==> #[trigger] value_of(s.remove(i), n) == value_of(
                s,
                n,
            ),
{
    let t = s.remove(i);
    assert forall|p: int, q: int| 0 <= p < q < t.len() implies #[trigger] t[p].0@
        != #[trigger] t[q].0@ by {
        let p0 = if p < i {
            p
        } else {
            p + 1
        };
        let q0 = if q < i {
            q
        } else {
            q + 1
        };
        assert(t[p] == s[p0] && t[q] == s[q0]);
    }
    assert(!has_name(t, s[i].0@)) by {
        if has_name(t, s[i].0@) {
            let j = choose|j: int| 0 <= j < t.len() && t[j].0@ == s[i].0@;
            let j0 = if j < i {
                j
            } else {
                j + 1
            };
            assert(t[j] == s[j0]);
        }
    }
    assert forall|n: Seq<char>| n != s[i].0@ implies #[trigger] has_name(t, n) == has_name(
        s,
        n,
    ) by {
        if has_name(t, n) {
            let j = choose|j: int| 0 <= j < t.len() && t[j].0@ == n;
            let j0 = if j < i {
                j
            } else {
                j + 1
            };
            assert(t[j] == s[j0]);
            assert(has_name(s, n));
        }
        if has_name(s, n) {
            let j = choose|j: int| 0 <= j < s.len() && s[j].0@ == n;
            let j0 = if j < i {
                j
            } else {
                j - 1
            };
            assert(t[j0] == s[j]);
            assert(has_name(t, n));
        }
    }
    assert forall|n: Seq<char>| n != s[i].0@ && has_name(s, n) implies #[trigger] value_of(t, n)
        == value_of(s, n) by {
        let j = choose|j: int| 0 <= j < s.len() && s[j].0@ == n;
        let j0 = if j < i {
            j
        } else {
            j - 1
        };
        assert(t[j0] == s[j]);
        lemma_name_lookup(s, j);
        lemma_name_lookup(t, j0);
    }
}

} // verus!
