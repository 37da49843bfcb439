//! Verified text helpers shared across the library: character-level string
//! comparison, substring search (the store's name-search semantics), decimal
//! rendering of integers, and capitalisation of a string's first character.

use vstd::prelude::*;

verus! {

/// Relies on `String::push`: appends exactly the given character.
#[verifier::external_body]
fn push_char(s: &mut String, c: char)
    ensures
        final(s)@ == old(s)@ + seq![c],
{
    s.push(c);
}

/// Relies on `char::to_uppercase`: the uppercase mapping of a character
/// depends on the character alone and yields one or more characters.
#[verifier::external_body]
fn uppercase_chars(c: char) -> (r: Vec<char>)
    ensures
        r@ == upper_of(c),
        r@.len() >= 1,
{
    c.to_uppercase().collect()
}

pub uninterp spec fn upper_of(c: char) -> Seq<char>;

/// Character-for-character equality of two string slices.
pub fn str_eq(a: &str, b: &str) -> (r: bool)
    ensures
        r == (a@ == b@),
{
    let alen = a.unicode_len();
    let blen = b.unicode_len();
    if alen != blen {
        return false;
    }
    let mut i: usize = 0;
    while i < alen
        invariant
            i <= alen,
            alen == a@.len(),
            alen == b@.len(),
            forall|j: int| 0 <= j < i ==> a@[j] == b@[j],
        decreases alen - i,
    {
        if a.get_char(i) != b.get_char(i) {
            return false;
        }
        i += 1;
    }
    proof {
        assert(a@ =~= b@);
    }
    true
}

/// The needle occurs in the haystack starting at position `i`.
pub open spec fn contains_at(hay: Seq<char>, needle: Seq<char>, i: int) -> bool {
    0 <= i && i + needle.len() <= hay.len() && hay.subrange(i, i + needle.len() as int) == needle
}

/// The needle occurs somewhere in the haystack.
pub open spec fn is_substring_of(needle: Seq<char>, hay: Seq<char>) -> bool {
    exists|i: int| contains_at(hay, needle, i)
}

/// Substring search: whether `needle` occurs anywhere in `hay`.
pub fn contains_substring(hay: &str, needle: &str) -> (r: bool)
    ensures
        r == is_substring_of(needle@, hay@),
{
    let hay_len = hay.unicode_len();
    let needle_len = needle.unicode_len();
    if needle_len > hay_len {
        return false;
    }
    if needle_len == 0 {
        proof {
            assert(hay@.subrange(0, 0) =~= needle@);
            assert(contains_at(hay@, needle@, 0));
        }
        return true;
    }
    let mut i: usize = 0;
    while i <= hay_len - needle_len
        invariant
            1 <= needle_len <= hay_len,
            hay_len == hay@.len(),
            needle_len == needle@.len(),
            i <= hay_len - needle_len + 1,
            forall|k: int| 0 <= k < i ==> !contains_at(hay@, needle@, k),
        decreases hay_len - needle_len + 1 - i,
    {
        let mut j: usize = 0;
        let mut mismatch = false;
        while j < needle_len && !mismatch
            invariant
                i + needle_len <= hay_len,
                hay_len == hay@.len(),
                needle_len == needle@.len(),
                j <= needle_len,
                !mismatch ==> forall|m: int| 0 <= m < j ==> hay@[i + m] == needle@[m],
                mismatch ==> !contains_at(hay@, needle@, i as int),
            decreases needle_len - j, if mismatch {
                0int
            } else {
                1int
            },
        {
            if hay.get_char(i + j) != needle.get_char(j) {
                proof {
                    assert(contains_at(hay@, needle@, i as int) ==> hay@.subrange(
                        i as int,
                        i + needle@.len() as int,
                    )[j as int] == needle@[j as int]);
                }
                mismatch = true;
            } else {
                j += 1;
            }
        }
        if !mismatch {
            proof {
                assert(hay@.subrange(i as int, i + needle@.len() as int) =~= needle@);
                assert(contains_at(hay@, needle@, i as int));
            }
            return true;
        }
        i += 1;
    }
    proof {
        assert(forall|k: int| contains_at(hay@, needle@, k) ==> 0 <= k <= hay@.len()
            - needle@.len());
    }
    false
}

/// The decimal digit character for a value below ten.
pub open spec fn digit_char(d: nat) -> char {
    ((48 + d) as u8) as char
}

/// The decimal digit string of a natural number, most significant first.
pub open spec fn dec_digits(n: nat) -> Seq<char>
    decreases n,
{
    if n < 10 {
        seq![digit_char(n)]
    } else {
        dec_digits(n / 10) + seq![digit_char(n % 10)]
    }
}

/// The decimal rendering of an integer, with a leading minus sign when
/// negative.
pub open spec fn dec_str(v: int) -> Seq<char> {
    if v < 0 {
        seq!['-'] + dec_digits((-v) as nat)
    } else {
        dec_digits(v as nat)
    }
}

fn append_dec_digits(s: &mut String, n: u64)
    ensures
        final(s)@ == old(s)@ + dec_digits(n as nat),
    decreases n,
{
    if n >= 10 {
        append_dec_digits(s, n / 10);
    }
    let d = (n % 10) as u8;
    let c = (48 + d) as char;
    push_char(s, c);
    proof {
        if n >= 10 {
            assert(final(s)@ =~= old(s)@ + (dec_digits((n / 10) as nat) + seq![
                digit_char((n % 10) as nat),
            ]));
        }
    }
}

/// Renders an integer in decimal notation.
pub fn i32_to_string(v: i32) -> (r: String)
    ensures
        r@ == dec_str(v as int),
{
    let mut s = String::new();
    if v < 0 {
        push_char(&mut s, '-');
        let mag = (-(v as i64)) as u64;
        append_dec_digits(&mut s, mag);
        proof {
            assert(s@ =~= dec_str(v as int));
        }
    } else {
        append_dec_digits(&mut s, v as u64);
        proof {
            assert(s@ =~= dec_str(v as int));
        }
    }
    s
}

/// A string with its first character uppercased.
pub open spec fn capitalised(s: Seq<char>) -> Seq<char> {
    if s.len() == 0 {
        Seq::empty()
    } else {
        upper_of(s[0]) + s.skip(1)
    }
}

/// Capitalises the first character of a string, leaving the rest unchanged.
pub fn capitalise_first(s: &str) -> (r: String)
    ensures
        r@ == capitalised(s@),
{
    let len = s.unicode_len();
    let mut out = String::new();
    if len == 0 {
        return out;
    }
    let first = s.get_char(0);
    let upped = uppercase_chars(first);
    let mut i: usize = 0;
    while i < upped.len()
        invariant
            i <= upped@.len(),
            out@ == upped@.take(i as int),
        decreases upped@.len() - i,
    {
        push_char(&mut out, upped[i]);
        proof {
            assert(out@ =~= upped@.take(i + 1));
        }
        i += 1;
    }
    proof {
        assert(out@ =~= upped@);
    }
    let rest = s.substring_char(1, len);
    out.append(rest);
    proof {
        assert(s@.subrange(1, s@.len() as int) =~= s@.skip(1));
    }
    out
}

} // verus!
