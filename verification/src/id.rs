//! Issue identifiers.
//!
//! A root id is `<prefix>-<4 chars>` where the four characters come from a
//! hash of fresh randomness and the clock, base32-encoded and lower-cased; a
//! child id is `<parent-id>.<n>` for a small per-parent counter. Children
//! are told apart from roots by the presence of a dot.

use vstd::prelude::*;

use crate::strutil::dec_str;
use crate::strutil::lower_seq;
use crate::strutil::u32_to_string;

verus! {

/// The SHA-256 digest of a byte sequence.
pub uninterp spec fn sha256_of(data: Seq<u8>) -> Seq<u8>;

/// The base32 Crockford encoding of a byte sequence.
pub uninterp spec fn crockford_of(data: Seq<u8>) -> Seq<char>;

/// A character of the base32 Crockford alphabet (digits and uppercase
/// letters except I, L, O and U).
pub open spec fn is_crockford_char(c: char) -> bool {
    ('0' <= c && c <= '9') || ('A' <= c && c <= 'Z' && c != 'I' && c != 'L' && c != 'O' && c
        != 'U')
}

/// A character of a generated id suffix: a Crockford character folded to
/// lower case.
pub open spec fn is_suffix_char(c: char) -> bool {
    ('0' <= c && c <= '9') || ('a' <= c && c <= 'z' && c != 'i' && c != 'l' && c != 'o' && c
        != 'u')
}

/// Sixteen fresh random bytes.
///
/// Relies on `uuid::Uuid::new_v4` and `as_bytes`: a version-4 UUID is sixteen
/// bytes; nothing can be promised of their values.
#[verifier::external_body]
fn uuid_bytes() -> (r: Vec<u8>)
    ensures
        r@.len() == 16,
{
    uuid::Uuid::new_v4().as_bytes().to_vec()
}

/// The current time in nanoseconds, as eight little-endian bytes.
///
/// Relies on `chrono::Utc::now` and `timestamp_nanos_opt`; nothing can be
/// promised of the clock.
#[verifier::external_body]
fn now_nanos_bytes() -> (r: Vec<u8>)
    ensures
        r@.len() == 8,
{
    let ts = chrono::Utc::now().timestamp_nanos_opt().unwrap_or(0);
    ts.to_le_bytes().to_vec()
}

/// The SHA-256 digest of `data`.
///
/// Relies on `sha2::Sha256`: the digest is 32 bytes and is a function of the
/// input alone.
#[verifier::external_body]
fn sha256(data: &Vec<u8>) -> (r: Vec<u8>)
    ensures
        r@ == sha256_of(data@),
        r@.len() == 32,
{
    let mut hasher = <sha2::Sha256 as sha2::Digest>::new();
    sha2::Digest::update(&mut hasher, data.as_slice());
    sha2::Digest::finalize(hasher).to_vec()
}

/// The base32 Crockford encoding of `data`.
///
/// Relies on `base32::encode` with the Crockford alphabet: the output is a
/// function of the input alone, eight characters per full five-byte block
/// plus a shortened final block, every character from the Crockford
/// alphabet.
#[verifier::external_body]
fn base32_crockford(data: &Vec<u8>) -> (r: String)
    ensures
        r@ == crockford_of(data@),
        r@.len() == 8 * (data@.len() / 5) + ((data@.len() % 5) * 8 + 4) / 5,
        forall|i: int| 0 <= i < r@.len() ==> is_crockford_char(#[trigger] r@[i]),
{
    base32::encode(base32::Alphabet::Crockford, data.as_slice())
}

/// Generates a fresh root id: the prefix, a hyphen, and four characters
/// drawn from hashed randomness. Collisions are not checked here; the store
/// layer rejects creation under an existing id.
pub fn generate_id(prefix: &str) -> (r: String)
    ensures
        r@.len() == prefix@.len() + 5,
        r@.take(prefix@.len() as int) == prefix@,
        r@[prefix@.len() as int] == '-',
        forall|i: int|
            prefix@.len() + 1 <= i < r@.len() ==> is_suffix_char(#[trigger] r@[i]),
{
    let mut data = uuid_bytes();
    let mut ts = now_nanos_bytes();
    data.append(&mut ts);
    let digest = sha256(&data);
    let mut head: Vec<u8> = Vec::new();
    head.push(digest[0]);
    head.push(digest[1]);
    head.push(digest[2]);
    head.push(digest[3]);
    let encoded = base32_crockford(&head);
    let lowered = crate::strutil::ascii_lower(encoded.as_str());
    assert(lowered@.len() == 7);
    assert(forall|i: int| 0 <= i < lowered@.len() ==> is_suffix_char(#[trigger] lowered@[i]))
        by {
        assert(forall|i: int|
            0 <= i < encoded@.len() ==> is_suffix_char(
                crate::strutil::lower_char(#[trigger] encoded@[i]),
            ));
    }
    let suffix = lowered.as_str().substring_char(0, 4);
    let r = String::from_str(prefix).concat("-").concat(suffix);
    proof {
        reveal_strlit("-");
        assert(r@.take(prefix@.len() as int) =~= prefix@);
    }
    r
}

/// `<parent>.<n>`, the deterministic id of the `n`-th child.
pub open spec fn child_id_of(parent: Seq<char>, n: int) -> Seq<char> {
    parent + "."@ + dec_str(n)
}

/// Builds the id of the `n`-th child of `parent_id`.
pub fn generate_child_id(parent_id: &str, child_num: u32) -> (r: String)
    ensures
        r@ == child_id_of(parent_id@, child_num as int),
{
    let num = u32_to_string(child_num);
    let r = String::from_str(parent_id).concat(".").concat(num.as_str());
    proof {
        reveal_strlit(".");
    }
    r
}

/// The index of the last dot of `s`, or `-1` when there is none.
pub open spec fn last_dot(s: Seq<char>) -> int
    decreases s.len(),
{
    if s.len() == 0 {
        -1
    } else if s.last() == '.' {
        s.len() - 1
    } else {
        last_dot(s.drop_last())
    }
}

/// The parent id a child id names, if the id names a child at all:
/// everything before the last dot.
pub open spec fn parent_of(id: Seq<char>) -> Option<Seq<char>> {
    if last_dot(id) >= 0 {
        Some(id.take(last_dot(id)))
    } else {
        None
    }
}

/// `last_dot` finds a dot with nothing but non-dots after it, or reports
/// that the sequence holds no dot at all.
proof fn lemma_last_dot(s: Seq<char>)
    ensures
        last_dot(s) >= 0 ==> last_dot(s) < s.len() && s[last_dot(s)] == '.' && (forall|j: int|
            last_dot(s) < j < s.len() ==> s[j] != '.'),
        last_dot(s) < 0 ==> !s.contains('.'),
    decreases s.len(),
{
    if s.len() > 0 {
        lemma_last_dot(s.drop_last());
        if s.last() != '.' {
            if last_dot(s) < 0 {
                assert forall|j: int| 0 <= j < s.len() implies s[j] != '.' by {
                    if j < s.len() - 1 {
                        assert(s.drop_last()[j] == s[j]);
                        if s[j] == '.' {
                            assert(s.drop_last().contains('.'));
                        }
                    }
                }
                if s.contains('.') {
                    let w = choose|w: int| 0 <= w < s.len() && s[w] == '.';
                    assert(s[w] != '.');
                }
            } else {
                assert(s.drop_last()[last_dot(s)] == s[last_dot(s)]);
                assert forall|j: int| last_dot(s) < j < s.len() implies s[j] != '.' by {
                    if j < s.len() - 1 {
                        assert(s.drop_last()[j] == s[j]);
                    }
                }
            }
        }
    }
}

/// True when `id` names a child issue.
pub fn is_child_id(id: &str) -> (r: bool)
    ensures
        r == id@.contains('.'),
{
    crate::strutil::contains_char(id, '.')
}

/// The parent id, when `id` names a child: everything before the last dot.
pub fn get_parent_id<'a>(id: &'a str) -> (r: Option<&'a str>)
    ensures
        match r {
            Some(p) => parent_of(id@) == Some(p@),
            None => parent_of(id@) is None,
        },
{
    proof {
        lemma_last_dot(id@);
    }
    match crate::strutil::rfind_char(id, '.') {
        Some(i) => {
            proof {
                if last_dot(id@) != i as int {
                    if last_dot(id@) > i as int {
                        assert(id@[last_dot(id@)] == '.');
                    } else {
                        assert(id@[i as int] == '.');
                    }
                }
            }
            Some(id.substring_char(0, i))
        },
        None => {
            proof {
                if last_dot(id@) >= 0 {
                    assert(id@.contains('.')) by {
                        assert(id@[last_dot(id@)] == '.');
                    }
                }
            }
            None
        },
    }
}

/// Splits `<prefix>-<rest>` at the first hyphen.
pub fn parse_id<'a>(id: &'a str) -> (r: Option<(&'a str, &'a str)>)
    ensures
        match r {
            Some(parts) => id@.contains('-') && parts.0@ == id@.take(first_dash(id@))
                && parts.1@ == id@.skip(first_dash(id@) + 1),
            None => !id@.contains('-'),
        },
{
    proof {
        lemma_first_dash(id@);
    }
    match crate::strutil::find_char(id, '-') {
        Some(i) => {
            proof {
                assert(id@.contains('-')) by {
                    assert(id@[i as int] == '-');
                }
                if first_dash(id@) != i as int {
                    if first_dash(id@) < i as int {
                        assert(id@[first_dash(id@)] == '-');
                    } else {
                        assert(id@[i as int] == '-');
                    }
                }
            }
            let len = id.unicode_len();
            let before = id.substring_char(0, i);
            let after = id.substring_char(i + 1, len);
            assert(after@ =~= id@.skip(i + 1));
            Some((before, after))
        },
        None => None,
    }
}

/// The index of the first hyphen of `s`, or the length when there is none.
pub open spec fn first_dash(s: Seq<char>) -> int
    decreases s.len(),
{
    if s.len() == 0 {
        0
    } else if s[0] == '-' {
        0
    } else {
        1 + first_dash(s.skip(1))
    }
}

/// `first_dash` finds the first hyphen, or runs off the end when the
/// sequence holds none.
proof fn lemma_first_dash(s: Seq<char>)
    ensures
        0 <= first_dash(s) <= s.len(),
        first_dash(s) < s.len() ==> s[first_dash(s)] == '-' && (forall|j: int|
            0 <= j < first_dash(s) ==> s[j] != '-'),
        first_dash(s) == s.len() ==> !s.contains('-'),
    decreases s.len(),
{
    if s.len() > 0 && s[0] != '-' {
        lemma_first_dash(s.skip(1));
        if first_dash(s) == s.len() {
            assert forall|j: int| 0 <= j < s.len() implies s[j] != '-' by {
                if j >= 1 {
                    assert(s.skip(1)[j - 1] == s[j]);
                    if s[j] == '-' {
                        assert(s.skip(1).contains('-'));
                    }
                }
            }
            if s.contains('-') {
                let w = choose|w: int| 0 <= w < s.len() && s[w] == '-';
                assert(s[w] != '-');
            }
        } else {
            assert(s.skip(1)[first_dash(s.skip(1))] == s[first_dash(s)]);
            assert forall|j: int| 0 <= j < first_dash(s) implies s[j] != '-' by {
                if j >= 1 {
                    assert(s.skip(1)[j - 1] == s[j]);
                }
            }
        }
    }
}

} // verus!
