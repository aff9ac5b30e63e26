//! Verified helpers over `&str` and `String`: equality, case folding for
//! ASCII, searching, and decimal formatting/parsing of `u32` values.
//!
//! Identifiers and configuration keys in this crate are ASCII, so ASCII-level
//! case folding is all the parsers need.

use vstd::prelude::*;

verus! {

/// ASCII lower-casing of a single character; everything outside `A`..`Z`
/// is left unchanged.
pub open spec fn lower_char(c: char) -> char {
    if 'A' <= c && c <= 'Z' {
        ((c as u8) + 32) as char
    } else {
        c
    }
}

/// ASCII lower-casing of a character sequence.
pub open spec fn lower_seq(s: Seq<char>) -> Seq<char> {
    s.map_values(|c: char| lower_char(c))
}

/// Character-for-character string equality.
pub fn str_eq(a: &str, b: &str) -> (r: bool)
    ensures
        r == (a@ == b@),
{
    let alen = a.unicode_len();
    let blen = b.unicode_len();
    if alen != blen {
        assert(a@ != b@) by {
            assert(a@.len() != b@.len());
        }
        return false;
    }
    let mut i: usize = 0;
    while i < alen
        invariant
            i <= alen,
            alen == a@.len(),
            alen == b@.len(),
            forall|j: int| 0 <= j < i ==> a@[j] == b@[j],
        decreases alen - i,
    {
        if a.get_char(i) != b.get_char(i) {
            return false;
        }
        i += 1;
    }
    proof {
        assert(a@ =~= b@);
    }
    true
}

/// Equality of `a` against an already-lower-case keyword `b`, ignoring the
/// ASCII case of `a`.
pub fn str_eq_ignore_ascii_case(a: &str, b: &str) -> (r: bool)
    ensures
        r == (lower_seq(a@) == b@),
{
    let alen = a.unicode_len();
    let blen = b.unicode_len();
    if alen != blen {
        assert(lower_seq(a@) != b@) by {
            assert(lower_seq(a@).len() == a@.len());
        }
        return false;
    }
    let mut i: usize = 0;
    while i < alen
        invariant
            i <= alen,
            alen == a@.len(),
            alen == b@.len(),
            forall|j: int| 0 <= j < i ==> lower_char(a@[j]) == b@[j],
        decreases alen - i,
    {
        let c = a.get_char(i);
        let folded: char = if 'A' <= c && c <= 'Z' {
            ((c as u8) + 32) as char
        } else {
            c
        };
        assert(folded == lower_char(a@[i as int]));
        if folded != b.get_char(i) {
            assert(lower_seq(a@)[i as int] != b@[i as int]);
            return false;
        }
        i += 1;
    }
    proof {
        assert(lower_seq(a@) =~= b@);
    }
    true
}

/// ASCII lower-casing of a whole string.
pub fn ascii_lower(s: &str) -> (r: String)
    ensures
        r@ == lower_seq(s@),
{
    let len = s.unicode_len();
    let mut chars: Vec<char> = Vec::new();
    let mut i: usize = 0;
    while i < len
        invariant
            i <= len,
            len == s@.len(),
            chars@ =~= lower_seq(s@).take(i as int),
        decreases len - i,
    {
        let c = s.get_char(i);
        let folded: char = if 'A' <= c && c <= 'Z' {
            ((c as u8) + 32) as char
        } else {
            c
        };
        assert(folded == lower_char(s@[i as int]));
        chars.push(folded);
        proof {
            assert(chars@ =~= lower_seq(s@).take(i + 1));
        }
        i += 1;
    }
    proof {
        assert(chars@ =~= lower_seq(s@));
    }
    chars_to_string(&chars)
}

/// Builds a `String` from a vector of characters.
///
/// Relies on `core::iter::Iterator::collect` through `String::from_iter`:
/// collecting characters yields the string of exactly those characters.
#[verifier::external_body]
pub(crate) fn chars_to_string(chars: &Vec<char>) -> (r: String)
    ensures
        r@ == chars@,
{
    chars.iter().collect()
}

/// True when `s` contains the character `c`.
pub fn contains_char(s: &str, c: char) -> (r: bool)
    ensures
        r == s@.contains(c),
{
    let len = s.unicode_len();
    let mut i: usize = 0;
    while i < len
        invariant
            i <= len,
            len == s@.len(),
            forall|j: int| 0 <= j < i ==> s@[j] != c,
        decreases len - i,
    {
        if s.get_char(i) == c {
            assert(s@.contains(c));
            return true;
        }
        i += 1;
    }
    assert(!s@.contains(c)) by {
        assert(forall|j: int| 0 <= j < s@.len() ==> s@[j] != c);
    }
    false
}

/// Index of the first occurrence of `c` in `s`, if any.
pub fn find_char(s: &str, c: char) -> (r: Option<usize>)
    ensures
        match r {
            Some(i) => i < s@.len() && s@[i as int] == c && (forall|j: int|
                0 <= j < i ==> s@[j] != c),
            None => !s@.contains(c),
        },
{
    let len = s.unicode_len();
    let mut i: usize = 0;
    while i < len
        invariant
            i <= len,
            len == s@.len(),
            forall|j: int| 0 <= j < i ==> s@[j] != c,
        decreases len - i,
    {
        if s.get_char(i) == c {
            return Some(i);
        }
        i += 1;
    }
    assert(!s@.contains(c)) by {
        assert(forall|j: int| 0 <= j < s@.len() ==> s@[j] != c);
    }
    None
}

/// Index of the last occurrence of `c` in `s`, if any.
pub fn rfind_char(s: &str, c: char) -> (r: Option<usize>)
    ensures
        match r {
            Some(i) => i < s@.len() && s@[i as int] == c && (forall|j: int|
                i < j < s@.len() ==> s@[j] != c),
            None => !s@.contains(c),
        },
{
    let len = s.unicode_len();
    let mut i: usize = len;
    while i > 0
        invariant
            i <= len,
            len == s@.len(),
            forall|j: int| i <= j < s@.len() ==> s@[j] != c,
        decreases i,
    {
        i -= 1;
        if s.get_char(i) == c {
            return Some(i);
        }
    }
    assert(!s@.contains(c)) by {
        assert(forall|j: int| 0 <= j < s@.len() ==> s@[j] != c);
    }
    None
}

/// True when `prefix` is a prefix of `s`.
pub fn starts_with(s: &str, prefix: &str) -> (r: bool)
    ensures
        r == (prefix@.len() <= s@.len() && s@.take(prefix@.len() as int) == prefix@),
{
    let plen = prefix.unicode_len();
    let slen = s.unicode_len();
    if plen > slen {
        return false;
    }
    let mut i: usize = 0;
    while i < plen
        invariant
            i <= plen,
            plen == prefix@.len(),
            slen == s@.len(),
            plen <= slen,
            forall|j: int| 0 <= j < i ==> s@[j] == prefix@[j],
        decreases plen - i,
    {
        if s.get_char(i) != prefix.get_char(i) {
            assert(s@.take(plen as int)[i as int] != prefix@[i as int]);
            return false;
        }
        i += 1;
    }
    proof {
        assert(s@.take(plen as int) =~= prefix@);
    }
    true
}

/// `sub` occurs somewhere in `s`.
pub open spec fn has_substring(s: Seq<char>, sub: Seq<char>) -> bool {
    exists|i: int|
        0 <= i <= s.len() - sub.len() && #[trigger] s.subrange(i, i + sub.len()) == sub
}

/// True when `sub` occurs somewhere in `s`.
#[verifier::loop_isolation(false)]
pub fn contains_sub(s: &str, sub: &str) -> (r: bool)
    ensures
        r == has_substring(s@, sub@),
{
    let slen = s.unicode_len();
    let sublen = sub.unicode_len();
    if sublen > slen {
        return false;
    }
    if sublen == 0 {
        proof {
            assert(s@.subrange(0, 0 + sub@.len() as int) =~= sub@);
        }
        return true;
    }
    let mut i: usize = 0;
    while i <= slen - sublen
        invariant
            1 <= sublen <= slen,
            i <= slen - sublen + 1,
            forall|k: int| 0 <= k < i ==> #[trigger] s@.subrange(k, k + sub@.len()) != sub@,
        decreases slen - i,
    {
        let mut j: usize = 0;
        let mut all: bool = true;
        while j < sublen
            invariant
                j <= sublen,
                i + sublen <= slen,
                all ==> forall|q: int| 0 <= q < j ==> s@[i + q] == sub@[q],
                !all ==> s@.subrange(i as int, i + sub@.len()) != sub@,
            decreases sublen - j,
        {
            if s.get_char(i + j) != sub.get_char(j) {
                proof {
                    assert(s@.subrange(i as int, i + sub@.len())[j as int] != sub@[j as int]);
                }
                all = false;
                j = sublen;
            } else {
                j += 1;
            }
        }
        if all {
            proof {
                assert(s@.subrange(i as int, i + sub@.len()) =~= sub@);
            }
            return true;
        }
        i += 1;
    }
    proof {
        if has_substring(s@, sub@) {
            let k = choose|k: int|
                0 <= k <= s@.len() - sub@.len() && #[trigger] s@.subrange(k, k + sub@.len())
                    == sub@;
            assert(k < i);
        }
    }
    false
}

/// True when `s` ends with `suffix`.
pub fn ends_with(s: &str, suffix: &str) -> (r: bool)
    ensures
        r == (suffix@.len() <= s@.len() && s@.skip((s@.len() - suffix@.len()) as int)
            == suffix@),
{
    let slen = s.unicode_len();
    let sublen = suffix.unicode_len();
    if sublen > slen {
        return false;
    }
    let tail = s.substring_char(slen - sublen, slen);
    let r = str_eq(tail, suffix);
    proof {
        assert(tail@ =~= s@.skip((s@.len() - suffix@.len()) as int));
    }
    r
}

/// Filtering one more element keeps or drops exactly that element.
pub proof fn lemma_filter_step<A>(s: Seq<A>, p: spec_fn(A) -> bool, i: int)
    requires
        0 <= i < s.len(),
    ensures
        s.take(i + 1).filter(p) == if p(s[i]) {
            s.take(i).filter(p).push(s[i])
        } else {
            s.take(i).filter(p)
        },
{
    reveal(Seq::filter);
    assert(s.take(i + 1).drop_last() =~= s.take(i));
    assert(s.take(i + 1).last() == s[i]);
}

/// The digit characters `0`..`9`.
pub open spec fn is_digit_char(c: char) -> bool {
    '0' <= c && c <= '9'
}

/// Numeric value of a digit character.
pub open spec fn digit_val(c: char) -> int {
    c as int - '0' as int
}

/// True when `s` is a non-empty, all-digit sequence.
pub open spec fn is_digit_seq(s: Seq<char>) -> bool {
    s.len() > 0 && forall|i: int| 0 <= i < s.len() ==> is_digit_char(#[trigger] s[i])
}

/// The value of a digit sequence read as a decimal number.
pub open spec fn dec_val(s: Seq<char>) -> int
    decreases s.len(),
{
    if s.len() == 0 {
        0
    } else {
        dec_val(s.drop_last()) * 10 + digit_val(s.last())
    }
}

/// The canonical decimal digit string of a non-negative number: no leading
/// zeros, except that zero itself is "0".
pub open spec fn dec_str(n: int) -> Seq<char>
    decreases n,
{
    if n <= 0 {
        seq!['0']
    } else if n < 10 {
        seq![((n + '0' as int) as char)]
    } else {
        dec_str(n / 10).push(((n % 10 + '0' as int) as char))
    }
}

/// The digit character for a value below ten.
fn digit_char_of(d: u32) -> (c: char)
    requires
        d < 10,
    ensures
        c == ((d + '0' as int) as char),
        is_digit_char(c),
        digit_val(c) == d,
{
    let c = ((d as u8) + 48) as char;
    proof {
        assert('0' as int == 48);
    }
    c
}

/// Formats `n` in decimal.
pub fn u32_to_string(n: u32) -> (r: String)
    ensures
        r@ == dec_str(n as int),
        is_digit_seq(r@),
        dec_val(r@) == n as int,
{
    let mut digits: Vec<char> = Vec::new();
    let mut m: u32 = n;
    if m == 0 {
        digits.push(digit_char_of(0));
        proof {
            assert(digits@ =~= dec_str(0));
            assert(dec_val(dec_str(0)) == 0) by {
                reveal_with_fuel(dec_val, 2);
            }
        }
        return chars_to_string(&digits);
    }
    // Collect digits least-significant first, then reverse.
    let mut rev: Vec<char> = Vec::new();
    while m > 0
        invariant
            n > 0,
            m <= n,
            m > 0 || rev@.len() > 0,
            forall|i: int| 0 <= i < rev@.len() ==> is_digit_char(#[trigger] rev@[i]),
            dec_str(n as int) =~= (if m > 0 {
                dec_str(m as int)
            } else {
                Seq::<char>::empty()
            }) + rev@.reverse(),
        decreases m,
    {
        let d = m % 10;
        rev.push(digit_char_of(d));
        proof {
            let prev = m as int;
            let next = prev / 10;
            assert(dec_str(prev) == if next > 0 {
                dec_str(next).push(((prev % 10 + '0' as int) as char))
            } else {
                seq![((prev % 10 + '0' as int) as char)]
            }) by {
                if prev < 10 {
                    assert(next == 0);
                } else {
                    assert(next > 0);
                }
            }
            assert((if next > 0 {
                dec_str(next)
            } else {
                Seq::<char>::empty()
            }) + rev@.reverse() =~= (if (m / 10) > 0 {
                dec_str((m / 10) as int)
            } else {
                Seq::<char>::empty()
            }) + rev@.reverse());
        }
        m = m / 10;
    }
    let mut out: Vec<char> = Vec::new();
    let mut i: usize = rev.len();
    while i > 0
        invariant
            i <= rev@.len(),
            out@ =~= rev@.reverse().take((rev@.len() - i) as int),
        decreases i,
    {
        i -= 1;
        out.push(rev[i]);
        proof {
            assert(rev@.reverse()[rev@.len() - 1 - i] == rev@[i as int]);
            assert(out@ =~= rev@.reverse().take((rev@.len() - i) as int));
        }
    }
    proof {
        assert(out@ =~= rev@.reverse());
        assert(out@ =~= dec_str(n as int));
        lemma_dec_str_digits(n as int);
        lemma_dec_val_of_dec_str(n as int);
    }
    chars_to_string(&out)
}

/// Every character of a canonical decimal string is a digit.
proof fn lemma_dec_str_digits(n: int)
    ensures
        is_digit_seq(dec_str(n)),
    decreases n,
{
    if n > 0 && n >= 10 {
        lemma_dec_str_digits(n / 10);
    }
}

/// Reading back a canonical decimal string gives the number itself.
proof fn lemma_dec_val_of_dec_str(n: int)
    requires
        n >= 0,
    ensures
        dec_val(dec_str(n)) == n,
    decreases n,
{
    if n < 10 {
        assert(dec_val(dec_str(n)) == n) by {
            reveal_with_fuel(dec_val, 2);
        }
    } else {
        lemma_dec_val_of_dec_str(n / 10);
        assert(dec_str(n).drop_last() =~= dec_str(n / 10));
    }
}

/// Parses a non-empty all-digit string as a `u32`; anything else, and any
/// value above `u32::MAX`, is rejected.
pub fn parse_u32(s: &str) -> (r: Option<u32>)
    ensures
        match r {
            Some(v) => is_digit_seq(s@) && dec_val(s@) == v as int,
            None => !is_digit_seq(s@) || dec_val(s@) > u32::MAX,
        },
{
    let len = s.unicode_len();
    if len == 0 {
        return None;
    }
    let mut acc: u32 = 0;
    let mut i: usize = 0;
    while i < len
        invariant
            i <= len,
            len == s@.len(),
            len > 0,
            forall|j: int| 0 <= j < i ==> is_digit_char(#[trigger] s@[j]),
            acc as int == dec_val(s@.take(i as int)),
        decreases len - i,
    {
        let c = s.get_char(i);
        if !('0' <= c && c <= '9') {
            return None;
        }
        let d: u32 = (c as u32) - 48;
        proof {
            assert('0' as int == 48);
            assert(d < 10);
            assert(s@.take(i + 1).drop_last() =~= s@.take(i as int));
            lemma_dec_val_mono(s@, i as int);
        }
        if acc > (0xFFFF_FFFFu32 - d) / 10 {
            proof {
                lemma_dec_val_prefix_exceeds(s@, i as int);
            }
            return None;
        }
        acc = acc * 10 + d;
        i += 1;
    }
    proof {
        assert(s@.take(len as int) =~= s@);
    }
    Some(acc)
}

/// A digit appended to a prefix keeps the running value consistent.
proof fn lemma_dec_val_mono(s: Seq<char>, i: int)
    requires
        0 <= i < s.len(),
    ensures
        dec_val(s.take(i + 1)) == dec_val(s.take(i)) * 10 + digit_val(s[i]),
{
    assert(s.take(i + 1).drop_last() =~= s.take(i));
    assert(s.take(i + 1).last() == s[i]);
}

/// Once a running decimal value exceeds `u32::MAX`, the value of the whole
/// digit string does too.
proof fn lemma_dec_val_prefix_exceeds(s: Seq<char>, i: int)
    requires
        0 <= i < s.len(),
        forall|j: int| 0 <= j <= i ==> is_digit_char(#[trigger] s[j]),
        dec_val(s.take(i)) * 10 + digit_val(s[i]) > u32::MAX,
    ensures
        is_digit_seq(s) ==> dec_val(s) > u32::MAX,
{
    if is_digit_seq(s) {
        lemma_dec_val_mono(s, i);
        lemma_dec_val_grows(s, i + 1, s.len() as int);
        assert(dec_val(s.take(s.len() as int)) == dec_val(s)) by {
            assert(s.take(s.len() as int) =~= s);
        }
    }
}

/// The decimal value of a longer all-digit prefix is at least that of a
/// shorter one.
proof fn lemma_dec_val_grows(s: Seq<char>, i: int, k: int)
    requires
        0 <= i <= k <= s.len(),
        forall|j: int| 0 <= j < s.len() ==> is_digit_char(#[trigger] s[j]),
        dec_val(s.take(i)) >= 0,
    ensures
        dec_val(s.take(k)) >= dec_val(s.take(i)),
        dec_val(s.take(k)) >= 0,
    decreases k - i,
{
    if i < k {
        lemma_dec_val_mono(s, i);
        assert(digit_val(s[i]) >= 0);
        lemma_dec_val_grows(s, i + 1, k);
    }
}

} // verus!
