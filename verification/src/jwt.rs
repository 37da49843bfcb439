//! Bearer-token expiry handling: extracting the payload segment of a
//! token, decoding it, and reading the numeric expiry claim out of the
//! decoded JSON bytes. The claim scanner is specified and verified down to
//! the byte level; only the decoding step is delegated.

use vstd::prelude::*;

use crate::htb::JWTClaims;

verus! {

/// The bytes a base64 string decodes to, or nothing when it is not valid
/// base64 under the standard alphabet.
pub uninterp spec fn base64_decode_of(s: Seq<char>) -> Option<Seq<u8>>;

/// Relies on `base64::decode`: decoding depends on the input string alone.
#[verifier::external_body]
fn base64_decode(s: &str) -> (r: Option<Vec<u8>>)
    ensures
        (match r {
            Some(v) => Some(v@),
            None => None,
        }) == base64_decode_of(s@),
{
    match base64::decode(s) {
        Ok(v) => Some(v),
        Err(_) => None,
    }
}

pub open spec fn is_ws_byte(b: u8) -> bool {
    b == 32 || b == 9 || b == 10 || b == 13
}

pub open spec fn is_digit_byte(b: u8) -> bool {
    48 <= b <= 57
}

/// The first position at or after `k` holding a non-whitespace byte.
pub open spec fn ws_end(s: Seq<u8>, k: int) -> int
    decreases s.len() - k,
{
    if 0 <= k < s.len() && is_ws_byte(s[k]) {
        ws_end(s, k + 1)
    } else {
        k
    }
}

/// The first position at or after `k` holding a non-digit byte.
pub open spec fn digits_end(s: Seq<u8>, k: int) -> int
    decreases s.len() - k,
{
    if 0 <= k < s.len() && is_digit_byte(s[k]) {
        digits_end(s, k + 1)
    } else {
        k
    }
}

/// The numeric value of the digit run `s[d..e]`.
pub open spec fn digits_value(s: Seq<u8>, d: int, e: int) -> int
    decreases e - d,
{
    if d >= e {
        0
    } else {
        digits_value(s, d, e - 1) * 10 + (s[e - 1] - 48)
    }
}

/// The quoted key under which the expiry claim is stored.
pub open spec fn exp_key() -> Seq<u8> {
    seq![34u8, 101u8, 120u8, 112u8, 34u8]
}

/// The expiry value found after an occurrence of the key ending at `k`:
/// optional whitespace, a colon, optional whitespace, then a digit run.
pub open spec fn exp_value_after(s: Seq<u8>, k: int) -> Option<int> {
    let a = ws_end(s, k);
    if a < s.len() && s[a] == 58 {
        let d = ws_end(s, a + 1);
        let e = digits_end(s, d);
        if e > d {
            Some(digits_value(s, d, e))
        } else {
            None
        }
    } else {
        None
    }
}

/// The expiry claim of the JSON bytes, scanning for occurrences of the
/// quoted key from position `k`: an occurrence that is not followed by a
/// colon and a digit run (it may be a string value that merely looks like
/// the key) does not end the scan. The scan is position-based over the
/// whole payload, not scoped to the top-level object: on a payload whose
/// nested objects also carry the key, the first key-and-digits occurrence
/// wins. Token claims are flat objects, where this coincides with the
/// top-level field.
pub open spec fn exp_field_from(s: Seq<u8>, k: int) -> Option<int>
    decreases s.len() - k,
{
    if k < 0 || k + 5 > s.len() {
        None
    } else if s.subrange(k, k + 5) == exp_key() {
        match exp_value_after(s, k + 5) {
            Some(v) => Some(v),
            None => exp_field_from(s, k + 1),
        }
    } else {
        exp_field_from(s, k + 1)
    }
}

/// The expiry claim of the JSON bytes.
pub open spec fn exp_field_of(s: Seq<u8>) -> Option<int> {
    exp_field_from(s, 0)
}

proof fn lemma_ws_end_range(s: Seq<u8>, k: int)
    requires
        0 <= k <= s.len(),
    ensures
        k <= ws_end(s, k) <= s.len(),
        ws_end(s, k) < s.len() ==> !is_ws_byte(s[ws_end(s, k)]),
        forall|j: int| k <= j < ws_end(s, k) ==> is_ws_byte(#[trigger] s[j]),
    decreases s.len() - k,
{
    if k < s.len() && is_ws_byte(s[k]) {
        lemma_ws_end_range(s, k + 1);
    }
}

proof fn lemma_digits_end_range(s: Seq<u8>, k: int)
    requires
        0 <= k <= s.len(),
    ensures
        k <= digits_end(s, k) <= s.len(),
        digits_end(s, k) < s.len() ==> !is_digit_byte(s[digits_end(s, k)]),
        forall|j: int| k <= j < digits_end(s, k) ==> is_digit_byte(#[trigger] s[j]),
    decreases s.len() - k,
{
    if k < s.len() && is_digit_byte(s[k]) {
        lemma_digits_end_range(s, k + 1);
    }
}

proof fn lemma_digits_value_nonneg(s: Seq<u8>, d: int, e: int)
    requires
        forall|j: int| d <= j < e ==> is_digit_byte(#[trigger] s[j]),
    ensures
        digits_value(s, d, e) >= 0,
    decreases e - d,
{
    if d < e {
        lemma_digits_value_nonneg(s, d, e - 1);
    }
}

proof fn lemma_digits_value_monotone(s: Seq<u8>, d: int, m: int, e: int)
    requires
        d <= m <= e,
        forall|j: int| d <= j < e ==> is_digit_byte(#[trigger] s[j]),
    ensures
        digits_value(s, d, e) >= digits_value(s, d, m),
    decreases e - m,
{
    if m < e {
        lemma_digits_value_monotone(s, d, m, e - 1);
        lemma_digits_value_nonneg(s, d, e - 1);
    }
}

fn skip_ws(bytes: &Vec<u8>, k: usize) -> (r: usize)
    requires
        k <= bytes@.len(),
    ensures
        r as int == ws_end(bytes@, k as int),
        k <= r <= bytes@.len(),
{
    let ghost s = bytes@;
    let mut r = k;
    while r < bytes.len() && is_ws(bytes[r])
        invariant
            k <= r <= bytes@.len(),
            s == bytes@,
            ws_end(s, k as int) == ws_end(s, r as int),
        decreases bytes@.len() - r,
    {
        proof {
            assert(ws_end(s, r as int) == ws_end(s, r + 1));
        }
        r += 1;
    }
    proof {
        assert(ws_end(s, r as int) == r as int);
    }
    r
}

fn is_ws(b: u8) -> (r: bool)
    ensures
        r == is_ws_byte(b),
{
    b == 32 || b == 9 || b == 10 || b == 13
}

fn is_digit(b: u8) -> (r: bool)
    ensures
        r == is_digit_byte(b),
{
    48 <= b && b <= 57
}

/// Reads the expiry value at one candidate position: optional
/// whitespace, a colon, optional whitespace, then a digit run. The outer
/// `Some` says a value stands here; the inner `Option` is the value, or
/// nothing when it does not fit a signed 64-bit integer.
fn exp_value_at(bytes: &Vec<u8>, k: usize) -> (r: Option<Option<i64>>)
    requires
        k <= bytes@.len(),
    ensures
        (match exp_value_after(bytes@, k as int) {
            Some(v) => if v <= i64::MAX as int {
                r matches Some(inner) && inner matches Some(x) && x as int == v
            } else {
                r == Some(None::<i64>)
            },
            None => r is None,
        }),
{
    let ghost s = bytes@;
    let a = skip_ws(bytes, k);
    if !(a < bytes.len() && bytes[a] == 58) {
        return None;
    }
    let d = skip_ws(bytes, a + 1);
    proof {
        lemma_digits_end_range(s, d as int);
    }
    let mut e = d;
    let mut acc: i64 = 0;
    let mut overflow = false;
    while e < bytes.len() && is_digit(bytes[e])
        invariant
            d <= e <= bytes@.len(),
            s == bytes@,
            digits_end(s, d as int) == digits_end(s, e as int),
            forall|j: int| d <= j < e ==> is_digit_byte(#[trigger] s[j]),
            !overflow ==> 0 <= acc && acc as int == digits_value(s, d as int, e as int),
            overflow ==> digits_value(s, d as int, e as int) > i64::MAX as int,
        decreases bytes@.len() - e,
    {
        let dig = bytes[e] - 48;
        proof {
            assert(digits_end(s, e as int) == digits_end(s, e + 1));
            if overflow {
                lemma_digits_value_monotone(s, d as int, e as int, e + 1);
                lemma_digits_value_nonneg(s, d as int, e as int);
            }
        }
        if !overflow {
            if acc > (i64::MAX - dig as i64) / 10 {
                proof {
                    assert(digits_value(s, d as int, e + 1) == acc as int * 10 + dig as int);
                }
                overflow = true;
            } else {
                acc = acc * 10 + dig as i64;
            }
        }
        e += 1;
    }
    proof {
        assert(digits_end(s, e as int) == e as int);
    }
    if e == d {
        return None;
    }
    if overflow {
        return Some(None);
    }
    Some(Some(acc))
}

/// Reads the expiry claim out of decoded token payload bytes (the first
/// key-and-digits occurrence anywhere in the payload, see
/// [`exp_field_from`]). Returns the claim when it is present and fits a
/// signed 64-bit value.
pub fn exp_from_claims(bytes: &Vec<u8>) -> (r: Option<i64>)
    ensures
        (match exp_field_of(bytes@) {
            Some(v) => if v <= i64::MAX as int {
                r matches Some(x) && x as int == v
            } else {
                r is None
            },
            None => r is None,
        }),
{
    let ghost s = bytes@;
    if bytes.len() < 5 {
        return None;
    }
    let mut i: usize = 0;
    while i <= bytes.len() - 5
        invariant
            bytes@.len() >= 5,
            s == bytes@,
            i <= bytes@.len() - 5 + 1,
            exp_field_of(s) == exp_field_from(s, i as int),
        decreases bytes@.len() - 5 + 1 - i,
    {
        if bytes[i] == 34 && bytes[i + 1] == 101 && bytes[i + 2] == 120 && bytes[i + 3] == 112
            && bytes[i + 4] == 34 {
            proof {
                assert(s.subrange(i as int, i + 5) =~= exp_key());
            }
            match exp_value_at(bytes, i + 5) {
                Some(found) => {
                    return found;
                },
                None => {
                    proof {
                        assert(exp_field_from(s, i as int) == exp_field_from(s, i + 1));
                    }
                },
            }
        } else {
            proof {
                assert(s.subrange(i as int, i + 5) != exp_key()) by {
                    if s.subrange(i as int, i + 5) == exp_key() {
                        assert(s.subrange(i as int, i + 5)[0] == s[i as int]);
                        assert(s.subrange(i as int, i + 5)[1] == s[i + 1]);
                        assert(s.subrange(i as int, i + 5)[2] == s[i + 2]);
                        assert(s.subrange(i as int, i + 5)[3] == s[i + 3]);
                        assert(s.subrange(i as int, i + 5)[4] == s[i + 4]);
                    }
                }
                assert(exp_field_from(s, i as int) == exp_field_from(s, i + 1));
            }
        }
        i += 1;
    }
    proof {
        assert(exp_field_from(s, i as int) is None);
    }
    None
}

/// The payload segment of a token: the characters between the first dot
/// and the next dot (or the end). A token without a dot has no payload.
pub open spec fn char_index_of_from(s: Seq<char>, c: char, k: int) -> Option<int>
    decreases s.len() - k,
{
    if k < 0 || k >= s.len() {
        None
    } else if s[k] == c {
        Some(k)
    } else {
        char_index_of_from(s, c, k + 1)
    }
}

pub open spec fn jwt_payload_of(token: Seq<char>) -> Option<Seq<char>> {
    match char_index_of_from(token, '.', 0) {
        Some(d1) => {
            let end = match char_index_of_from(token, '.', d1 + 1) {
                Some(d2) => d2,
                None => token.len() as int,
            };
            Some(token.subrange(d1 + 1, end))
        },
        None => None,
    }
}

/// The expiry claim carried by a token: its payload segment decoded, then
/// scanned for the numeric expiry field.
pub open spec fn jwt_exp_of(token: Seq<char>) -> Option<int> {
    match jwt_payload_of(token) {
        Some(p) => match base64_decode_of(p) {
            Some(bytes) => exp_field_of(bytes),
            None => None,
        },
        None => None,
    }
}

fn find_char_from(token: &str, c: char, k: usize) -> (r: Option<usize>)
    requires
        k <= token@.len(),
    ensures
        (match r {
            Some(i) => Some(i as int),
            None => None,
        }) == char_index_of_from(token@, c, k as int),
        (match r {
            Some(i) => k <= i < token@.len(),
            None => true,
        }),
{
    let ghost s = token@;
    let len = token.unicode_len();
    let mut i = k;
    while i < len
        invariant
            k <= i <= len,
            len == token@.len(),
            s == token@,
            char_index_of_from(s, c, k as int) == char_index_of_from(s, c, i as int),
        decreases len - i,
    {
        if token.get_char(i) == c {
            return Some(i);
        }
        proof {
            assert(char_index_of_from(s, c, i as int) == char_index_of_from(s, c, i + 1));
        }
        i += 1;
    }
    None
}

/// Parses the expiry claim out of a bearer token: the payload between the
/// first and second dot is decoded and scanned for its expiry field (see
/// [`exp_field_from`] for what the scan accepts). Returns the claims when
/// the token carries a readable expiry that fits a signed 64-bit value.
pub fn parse_jwt(token: &str) -> (r: Option<JWTClaims>)
    ensures
        (match jwt_exp_of(token@) {
            Some(v) => if v <= i64::MAX as int {
                r matches Some(c) && c.exp as int == v
            } else {
                r is None
            },
            None => r is None,
        }),
{
    let len = token.unicode_len();
    let d1 = match find_char_from(token, '.', 0) {
        Some(i) => i,
        None => {
            return None;
        },
    };
    let end = match find_char_from(token, '.', d1 + 1) {
        Some(i) => i,
        None => len,
    };
    let payload = token.substring_char(d1 + 1, end);
    let decoded = match base64_decode(payload) {
        Some(v) => v,
        None => {
            return None;
        },
    };
    match exp_from_claims(&decoded) {
        Some(exp) => Some(JWTClaims { exp }),
        None => None,
    }
}

} // verus!
