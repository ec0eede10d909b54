//! Input validation and small formatting helpers.
//!
//! Secret names and values are validated here; byte counts are rendered
//! for display. Everything in this module is ordinary computation on
//! characters and integers, verified against spec functions that state
//! the rules exactly.

use vstd::pervasive::VecAdditionalExecFns;
use vstd::prelude::*;
use vstd::string::{StrSliceExecFns, StringExecFns};

use crate::errors::VaultError;

verus! {

/// The control characters: the C0 range below space, delete, and the C1
/// range.
pub open spec fn is_control_char(c: char) -> bool {
    (c as u32) < 0x20 || (0x7f <= c as u32 && c as u32 <= 0x9f)
}

/// Characters that a secret name may not contain: path separators and
/// the usual filesystem-special set, plus every control character.
pub open spec fn is_forbidden_name_char(c: char) -> bool {
    ||| c == '/'
    ||| c == '\\'
    ||| c == ':'
    ||| c == '*'
    ||| c == '?'
    ||| c == '"'
    ||| c == '<'
    ||| c == '>'
    ||| c == '|'
    ||| is_control_char(c)
}

/// ASCII upper-casing of one character; anything outside `a`..`z` is
/// left alone.
pub open spec fn ascii_upper(c: char) -> char {
    if 97 <= c as u32 && c as u32 <= 122 {
        ((c as u32 - 32) as u8) as char
    } else {
        c
    }
}

/// ASCII upper-casing of a whole string.
pub open spec fn upper_chars(s: Seq<char>) -> Seq<char> {
    s.map_values(|c: char| ascii_upper(c))
}

/// ASCII lower-casing of one character; anything outside `A`..`Z` is
/// left alone.
pub open spec fn ascii_lower(c: char) -> char {
    if 65 <= c as u32 && c as u32 <= 90 {
        ((c as u32 + 32) as u8) as char
    } else {
        c
    }
}

/// ASCII lower-casing of a whole string.
pub open spec fn lower_chars(s: Seq<char>) -> Seq<char> {
    s.map_values(|c: char| ascii_lower(c))
}

/// Names that are refused regardless of case: the two directory dots
/// and the classic reserved device names.
pub open spec fn is_reserved_name(s: Seq<char>) -> bool {
    ||| upper_chars(s) == "."@
    ||| upper_chars(s) == ".."@
    ||| upper_chars(s) == "CON"@
    ||| upper_chars(s) == "PRN"@
    ||| upper_chars(s) == "AUX"@
    ||| upper_chars(s) == "NUL"@
}

/// A valid secret name: non-empty, at most 255 characters, free of
/// forbidden characters, and not a reserved name.
pub open spec fn valid_secret_name(s: Seq<char>) -> bool {
    &&& s.len() > 0
    &&& s.len() <= 255
    &&& forall|i: int| 0 <= i < s.len() ==> !is_forbidden_name_char(#[trigger] s[i])
    &&& !is_reserved_name(s)
}

/// A valid secret value: non-empty, at most 10,000 characters, no
/// embedded null character.
pub open spec fn valid_secret_value(v: Seq<char>) -> bool {
    &&& v.len() > 0
    &&& v.len() <= 10000
    &&& forall|i: int| 0 <= i < v.len() ==> #[trigger] v[i] != '\0'
}

fn ascii_upper_exec(c: char) -> (r: char)
    ensures
        r == ascii_upper(c),
{
    let u = c as u32;
    if 97 <= u && u <= 122 {
        ((u - 32) as u8) as char
    } else {
        c
    }
}

fn ascii_lower_exec(c: char) -> (r: char)
    ensures
        r == ascii_lower(c),
{
    let u = c as u32;
    if 65 <= u && u <= 90 {
        ((u + 32) as u8) as char
    } else {
        c
    }
}

/// Whether `s`, lower-cased ASCII-wise, equals `target`.
pub(crate) fn eq_lower(s: &str, target: &str) -> (b: bool)
    ensures
        b == (lower_chars(s@) == target@),
{
    let n = s.unicode_len();
    if n != target.unicode_len() {
        assert(lower_chars(s@).len() == s@.len());
        return false;
    }
    let mut i: usize = 0;
    while i < n
        invariant
            n == s@.len() == target@.len(),
            i <= n,
            forall|k: int| 0 <= k < i ==> lower_chars(s@)[k] == target@[k],
        decreases n - i,
    {
        let c = ascii_lower_exec(s.get_char(i));
        if c != target.get_char(i) {
            return false;
        }
        i += 1;
    }
    assert(lower_chars(s@) =~= target@);
    true
}

/// Whether `name`, upper-cased ASCII-wise, equals `target`.
fn eq_upper(name: &str, target: &str) -> (b: bool)
    ensures
        b == (upper_chars(name@) == target@),
{
    let n = name.unicode_len();
    if n != target.unicode_len() {
        assert(upper_chars(name@).len() == name@.len());
        return false;
    }
    let mut i: usize = 0;
    while i < n
        invariant
            n == name@.len() == target@.len(),
            i <= n,
            forall|k: int| 0 <= k < i ==> upper_chars(name@)[k] == target@[k],
        decreases n - i,
    {
        let c = ascii_upper_exec(name.get_char(i));
        if c != target.get_char(i) {
            return false;
        }
        i += 1;
    }
    assert(upper_chars(name@) =~= target@);
    true
}

/// Check a secret name: non-empty, at most 255 characters, no path
/// separators or other forbidden characters, no control characters,
/// and not a reserved name (compared case-insensitively). A valid name
/// comes back unchanged.
pub fn sanitize_secret_name(name: &str) -> (r: Result<String, VaultError>)
    ensures
        r matches Ok(s) ==> valid_secret_name(name@) && s@ == name@,
        r matches Err(e) ==> e == VaultError::Validation && !valid_secret_name(name@),
        valid_secret_name(name@) ==> r is Ok,
{
    let n = name.unicode_len();
    if n == 0 || n > 255 {
        return Err(VaultError::Validation);
    }
    let mut i: usize = 0;
    while i < n
        invariant
            n == name@.len(),
            i <= n,
            forall|k: int| 0 <= k < i ==> !is_forbidden_name_char(#[trigger] name@[k]),
        decreases n - i,
    {
        let c = name.get_char(i);
        let u = c as u32;
        if c == '/' || c == '\\' || c == ':' || c == '*' || c == '?' || c == '"' || c == '<' || c
            == '>' || c == '|' || u < 0x20 || (0x7f <= u && u <= 0x9f) {
            return Err(VaultError::Validation);
        }
        i += 1;
    }
    if eq_upper(name, ".") || eq_upper(name, "..") || eq_upper(name, "CON") || eq_upper(name, "PRN")
        || eq_upper(name, "AUX") || eq_upper(name, "NUL") {
        return Err(VaultError::Validation);
    }
    Ok(name.to_owned())
}

/// Check a secret value: non-empty, at most 10,000 characters, no null
/// bytes.
pub fn validate_secret_value(value: &str) -> (r: Result<(), VaultError>)
    ensures
        r is Ok <==> valid_secret_value(value@),
        r matches Err(e) ==> e == VaultError::Validation,
{
    let n = value.unicode_len();
    if n == 0 || n > 10000 {
        return Err(VaultError::Validation);
    }
    let mut i: usize = 0;
    while i < n
        invariant
            n == value@.len(),
            i <= n,
            forall|k: int| 0 <= k < i ==> #[trigger] value@[k] != '\0',
        decreases n - i,
    {
        if value.get_char(i) == '\0' {
            return Err(VaultError::Validation);
        }
        i += 1;
    }
    Ok(())
}

/// Compare two strings for equality without leaving the loop at the
/// first difference: the accumulated flag is only read at the end.
pub fn secure_compare(a: &str, b: &str) -> (r: bool)
    ensures
        r == (a@ == b@),
{
    let n = a.unicode_len();
    if n != b.unicode_len() {
        return false;
    }
    let mut differs = false;
    let mut i: usize = 0;
    while i < n
        invariant
            n == a@.len() == b@.len(),
            i <= n,
            !differs <==> (forall|k: int| 0 <= k < i ==> a@[k] == b@[k]),
        decreases n - i,
    {
        if a.get_char(i) != b.get_char(i) {
            differs = true;
        }
        i += 1;
    }
    if !differs {
        assert(a@ =~= b@);
    }
    !differs
}

/// Overwrite a buffer with zeroes before it is released.
pub fn clear_sensitive_data(data: &mut Vec<u8>)
    ensures
        final(data)@.len() == old(data)@.len(),
        forall|k: int| 0 <= k < final(data)@.len() ==> final(data)@[k] == 0,
{
    let n = data.len();
    let mut i: usize = 0;
    while i < n
        invariant
            n == data@.len(),
            i <= n,
            forall|k: int| 0 <= k < i ==> data@[k] == 0,
        decreases n - i,
    {
        data.set(i, 0);
        i += 1;
    }
}

/// Strict lexicographic order on character sequences, by code point.
#[verifier::opaque]
pub open spec fn lex_lt(a: Seq<char>, b: Seq<char>) -> bool
    decreases a.len(),
{
    if b.len() == 0 {
        false
    } else if a.len() == 0 {
        true
    } else if (a[0] as u32) < (b[0] as u32) {
        true
    } else if a[0] != b[0] {
        false
    } else {
        lex_lt(a.drop_first(), b.drop_first())
    }
}

/// Dropping a common prefix does not change the order.
proof fn lemma_lex_skip(a: Seq<char>, b: Seq<char>, i: int)
    requires
        0 <= i <= a.len(),
        i <= b.len(),
        forall|j: int| 0 <= j < i ==> a[j] == b[j],
    ensures
        lex_lt(a, b) == lex_lt(a.skip(i), b.skip(i)),
    decreases i,
{
    reveal(lex_lt);
    if i > 0 {
        let a1 = a.drop_first();
        let b1 = b.drop_first();
        assert(forall|j: int| 0 <= j < i - 1 ==> #[trigger] a1[j] == b1[j]);
        lemma_lex_skip(a1, b1, i - 1);
        assert(a1.skip(i - 1) =~= a.skip(i));
        assert(b1.skip(i - 1) =~= b.skip(i));
    } else {
        assert(a.skip(0) =~= a);
        assert(b.skip(0) =~= b);
    }
}

/// The order is total and strict: two strings are equal or one is
/// strictly below the other, never both.
pub proof fn lemma_lex_total(a: Seq<char>, b: Seq<char>)
    ensures
        a == b || lex_lt(a, b) || lex_lt(b, a),
        !(lex_lt(a, b) && lex_lt(b, a)),
        lex_lt(a, b) ==> a != b,
    decreases a.len(),
{
    reveal(lex_lt);
    if a.len() == 0 && b.len() == 0 {
        assert(a =~= b);
    } else if a.len() > 0 && b.len() > 0 && a[0] == b[0] {
        lemma_lex_total(a.drop_first(), b.drop_first());
        if a.drop_first() == b.drop_first() {
            assert forall|j: int| 0 <= j < a.len() implies a[j] == b[j] by {
                if j > 0 {
                    assert(a.drop_first()[j - 1] == b.drop_first()[j - 1]);
                }
            }
            assert(a =~= b);
        }
        if a == b {
            assert(a.drop_first() =~= b.drop_first());
        }
    } else if a.len() > 0 && b.len() > 0 {
        if (a[0] as u32) == (b[0] as u32) {
            vstd::utf8::char_u32_cast(a[0], a[0] as u32);
            vstd::utf8::char_u32_cast(b[0], b[0] as u32);
            assert(false);
        }
    }
}

/// The order is transitive.
pub proof fn lemma_lex_trans(a: Seq<char>, b: Seq<char>, c: Seq<char>)
    requires
        lex_lt(a, b),
        lex_lt(b, c),
    ensures
        lex_lt(a, c),
    decreases a.len(),
{
    reveal(lex_lt);
    if a.len() > 0 && b.len() > 0 && c.len() > 0 && a[0] == b[0] && b[0] == c[0] {
        lemma_lex_trans(a.drop_first(), b.drop_first(), c.drop_first());
    }
}

/// Relies on `chrono::Utc::now`: the current time in whole seconds
/// since the Unix epoch. Nondeterministic; nothing holds of the value.
#[verifier::external_body]
pub fn now_ts() -> i64 {
    chrono::Utc::now().timestamp()
}

/// Whether `a` comes strictly before `b` in lexicographic order.
pub fn str_lt(a: &str, b: &str) -> (r: bool)
    ensures
        r == lex_lt(a@, b@),
{
    let an = a.unicode_len();
    let bn = b.unicode_len();
    let mut i: usize = 0;
    while i < an && i < bn
        invariant
            an == a@.len(),
            bn == b@.len(),
            i <= an,
            i <= bn,
            forall|j: int| 0 <= j < i ==> a@[j] == b@[j],
        decreases an - i,
    {
        let ca = a.get_char(i);
        let cb = b.get_char(i);
        if ca == cb {
            i += 1;
        } else {
            proof {
                reveal(lex_lt);
                lemma_lex_skip(a@, b@, i as int);
                assert(a@.skip(i as int)[0] == a@[i as int]);
                assert(b@.skip(i as int)[0] == b@[i as int]);
            }
            return (ca as u32) < (cb as u32);
        }
    }
    proof {
        reveal(lex_lt);
        lemma_lex_skip(a@, b@, i as int);
        if i < bn {
            assert(b@.skip(i as int).len() > 0);
        }
    }
    an < bn
}

/// The decimal digit character for `d`.
pub open spec fn digit_char(d: int) -> char
    recommends
        0 <= d <= 9,
{
    ((48 + d) as u8) as char
}

/// The decimal digits of `n`, most significant first.
pub open spec fn dec_str(n: nat) -> Seq<char>
    decreases n,
{
    if n < 10 {
        seq![digit_char(n as int)]
    } else {
        dec_str(n / 10) + seq![digit_char((n % 10) as int)]
    }
}

/// Relies on `u64`'s `Display` through `to_string`: the decimal digits
/// of `n`.
#[verifier::external_body]
fn u64_to_string(n: u64) -> (r: String)
    ensures
        r@ == dec_str(n as nat),
{
    n.to_string()
}

/// `num / den` rounded to the nearest integer, ties to the even
/// neighbour — the rounding that decimal display of a binary fraction
/// performs.
pub open spec fn round_half_even(num: int, den: int) -> int
    recommends
        den > 0,
{
    let q = num / den;
    let r = num % den;
    if 2 * r < den {
        q
    } else if 2 * r > den {
        q + 1
    } else if q % 2 == 0 {
        q
    } else {
        q + 1
    }
}

/// Which unit a byte count at least 1024 is displayed in: 1 for KB up
/// to 4 for TB.
pub open spec fn unit_index_of(bytes: u64) -> int {
    if bytes < 0x10_0000 {
        1
    } else if bytes < 0x4000_0000 {
        2
    } else if bytes < 0x100_0000_0000 {
        3
    } else {
        4
    }
}

/// The scale of each display unit.
pub open spec fn unit_scale(k: int) -> int {
    if k == 1 {
        0x400
    } else if k == 2 {
        0x10_0000
    } else if k == 3 {
        0x4000_0000
    } else {
        0x100_0000_0000
    }
}

/// The suffix of each display unit.
pub open spec fn unit_name(k: int) -> Seq<char> {
    if k == 1 {
        " KB"@
    } else if k == 2 {
        " MB"@
    } else if k == 3 {
        " GB"@
    } else {
        " TB"@
    }
}

/// The human-readable rendering of a byte count: plain below 1024,
/// otherwise scaled to the largest unit that keeps the value below
/// 1024 (capped at TB) and shown with one decimal digit.
pub open spec fn format_bytes_spec(bytes: u64) -> Seq<char> {
    if bytes < 1024 {
        dec_str(bytes as nat) + " B"@
    } else {
        let k = unit_index_of(bytes);
        let t = round_half_even(bytes * 10, unit_scale(k));
        dec_str((t / 10) as nat) + "."@ + dec_str((t % 10) as nat) + unit_name(k)
    }
}

/// Render a byte count for display.
pub fn format_bytes(bytes: u64) -> (r: String)
    ensures
        r@ == format_bytes_spec(bytes),
{
    if bytes < 1024 {
        let mut s = u64_to_string(bytes);
        s.append(" B");
        return s;
    }
    let den: u64 = if bytes < 0x10_0000 {
        0x400
    } else if bytes < 0x4000_0000 {
        0x10_0000
    } else if bytes < 0x100_0000_0000 {
        0x4000_0000
    } else {
        0x100_0000_0000
    };
    let unit: &str = if bytes < 0x10_0000 {
        " KB"
    } else if bytes < 0x4000_0000 {
        " MB"
    } else if bytes < 0x100_0000_0000 {
        " GB"
    } else {
        " TB"
    };
    proof {
        assert(den as int == unit_scale(unit_index_of(bytes)));
        assert(unit@ == unit_name(unit_index_of(bytes)));
    }
    let num: u128 = (bytes as u128) * 10;
    let d: u128 = den as u128;
    let q: u128 = num / d;
    let rem: u128 = num % d;
    proof {
        assert(q < bytes) by (nonlinear_arith)
            requires
                num == bytes * 10,
                q == num / d,
                d >= 1024,
                bytes >= 1024,
        ;
    }
    let t: u64 = if 2 * rem < d {
        q as u64
    } else if 2 * rem > d {
        (q + 1) as u64
    } else if q % 2 == 0 {
        q as u64
    } else {
        (q + 1) as u64
    };
    assert(t as int == round_half_even(bytes * 10, unit_scale(unit_index_of(bytes))));
    let mut s = u64_to_string(t / 10);
    s.append(".");
    let frac = u64_to_string(t % 10);
    s.append(frac.as_str());
    s.append(unit);
    s
}

} // verus!
