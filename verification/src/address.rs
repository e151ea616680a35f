//! The textual form of a principal and the prefix test applied to it.
//!
//! A self-authenticating principal is 29 bytes long. Its text is the lower-case
//! base32 form of a 4-byte checksum followed by those bytes, 53 characters in
//! all, written in groups of five with a dash between the groups: 63
//! characters, of which every sixth is a dash.

use vstd::arithmetic::power::{lemma_pow_increases, pow};
use vstd::prelude::*;
use vstd::std_specs::iter::IteratorSpec;

verus! {

/// The length of the text of a self-authenticating principal.
pub const PRINCIPAL_TEXT_LEN: usize = 63;

/// The number of values that one character of the text can take.
pub const ALPHABET_SIZE: u64 = 32;

/// The characters of the base32 alphabet in lower case.
pub open spec fn is_base32_char(c: char) -> bool {
    ('a' <= c && c <= 'z') || ('2' <= c && c <= '7')
}

/// Whether `c` may stand at position `i` of a principal's text: a dash at
/// every sixth position, a base32 character elsewhere.
pub open spec fn fits_position(i: int, c: char) -> bool {
    if i % 6 == 5 {
        c == '-'
    } else {
        is_base32_char(c)
    }
}

/// The shape of the text of a self-authenticating principal.
pub open spec fn is_principal_text(text: Seq<char>) -> bool {
    &&& text.len() == PRINCIPAL_TEXT_LEN
    &&& forall|i: int| 0 <= i < text.len() ==> fits_position(i, #[trigger] text[i])
}

/// Whether `prefix` is the start of some text of the principal shape.
pub open spec fn can_start_principal(prefix: Seq<char>) -> bool {
    &&& prefix.len() <= PRINCIPAL_TEXT_LEN
    &&& forall|i: int| 0 <= i < prefix.len() ==> fits_position(i, #[trigger] prefix[i])
}

/// Whether `c` may stand at position `i` of a principal's text.
fn char_fits(i: usize, c: char) -> (r: bool)
    ensures
        r == fits_position(i as int, c),
{
    if i % 6 == 5 {
        c == '-'
    } else {
        (c >= 'a' && c <= 'z') || (c >= '2' && c <= '7')
    }
}

/// Tests whether `text` has the shape of a self-authenticating principal's
/// text.
pub fn check_principal_text(text: &str) -> (r: bool)
    ensures
        r == is_principal_text(text@),
{
    broadcast use vstd::string::group_string_axioms;

    let mut rest = text.chars();
    let mut seen: usize = 0;
    while seen < PRINCIPAL_TEXT_LEN
        invariant
            seen <= PRINCIPAL_TEXT_LEN,
            seen <= text@.len(),
            rest.obeys_prophetic_iter_laws(),
            rest.remaining() == text@.skip(seen as int),
            forall|i: int| 0 <= i < seen ==> fits_position(i, #[trigger] text@[i]),
        decreases PRINCIPAL_TEXT_LEN - seen,
    {
        match rest.next() {
            None => {
                return false;
            },
            Some(c) => {
                assert(c == text@[seen as int]);
                if !char_fits(seen, c) {
                    return false;
                }
                assert(text@.skip(seen as int).drop_first() == text@.skip(seen + 1));
                seen = seen + 1;
            },
        }
    }
    match rest.next() {
        None => true,
        Some(_) => false,
    }
}

/// Case-sensitive test whether `text` starts with `prefix`.
pub fn has_prefix(text: &str, prefix: &str) -> (r: bool)
    ensures
        r == prefix@.is_prefix_of(text@),
{
    broadcast use vstd::string::group_string_axioms;

    let mut rest_text = text.chars();
    let mut rest_prefix = prefix.chars();
    let ghost mut seen: int = 0;
    loop
        invariant
            0 <= seen <= prefix@.len(),
            seen <= text@.len(),
            rest_text.obeys_prophetic_iter_laws(),
            rest_prefix.obeys_prophetic_iter_laws(),
            rest_text.remaining() == text@.skip(seen),
            rest_prefix.remaining() == prefix@.skip(seen),
            prefix@.take(seen) == text@.take(seen),
        decreases prefix@.len() - seen,
    {
        match rest_prefix.next() {
            None => {
                assert(prefix@.take(seen) == prefix@);
                assert(text@.take(seen) == text@.subrange(0, prefix@.len() as int));
                return true;
            },
            Some(wanted) => {
                match rest_text.next() {
                    None => {
                        return false;
                    },
                    Some(actual) => {
                        if wanted != actual {
                            assert(prefix@.len() <= text@.len() ==> text@.subrange(
                                0,
                                prefix@.len() as int,
                            )[seen] != prefix@[seen]);
                            return false;
                        }
                        proof {
                            assert(prefix@.skip(seen).drop_first() == prefix@.skip(seen + 1));
                            assert(text@.skip(seen).drop_first() == text@.skip(seen + 1));
                            assert(prefix@.take(seen + 1) == prefix@.take(seen).push(prefix@[seen]));
                            assert(text@.take(seen + 1) == text@.take(seen).push(text@[seen]));
                            seen = seen + 1;
                        }
                    },
                }
            },
        }
    }
}

/// A prefix that no principal text can start with is the start of none.
pub proof fn lemma_misfit_prefix_never_matches(prefix: Seq<char>, text: Seq<char>)
    requires
        is_principal_text(text),
        !can_start_principal(prefix),
    ensures
        !prefix.is_prefix_of(text),
{
    if prefix.is_prefix_of(text) {
        assert forall|i: int| 0 <= i < prefix.len() implies fits_position(
            i,
            #[trigger] prefix[i],
        ) by {
            assert(prefix[i] == text.subrange(0, prefix.len() as int)[i]);
            assert(fits_position(i, text[i]));
        }
    }
}

/// A prefix that holds a character which is neither a lower-case base32
/// character nor a dash, an upper-case letter for one, starts no principal
/// text.
pub proof fn lemma_foreign_character_never_matches(prefix: Seq<char>, text: Seq<char>, at: int)
    requires
        is_principal_text(text),
        0 <= at < prefix.len(),
        !is_base32_char(prefix[at]),
        prefix[at] != '-',
    ensures
        !prefix.is_prefix_of(text),
{
    assert(!fits_position(at, prefix[at]));
    lemma_misfit_prefix_never_matches(prefix, text);
}

/// The empty prefix starts every text.
pub proof fn lemma_empty_prefix_always_matches(prefix: Seq<char>, text: Seq<char>)
    requires
        prefix.len() == 0,
    ensures
        prefix.is_prefix_of(text),
{
    assert(prefix =~= text.subrange(0, 0));
}

/// The number of attempts after which a prefix of `prefix_len` characters is
/// expected to have been met once: `ALPHABET_SIZE` to the power of
/// `prefix_len`. `None` where that number does not fit in 64 bits.
pub fn expected_attempts(prefix_len: usize) -> (r: Option<u64>)
    ensures
        match r {
            Some(n) => n == pow(ALPHABET_SIZE as int, prefix_len as nat),
            None => pow(ALPHABET_SIZE as int, prefix_len as nat) > u64::MAX,
        },
{
    let mut total: u64 = 1;
    let mut done: usize = 0;
    proof {
        vstd::arithmetic::power::lemma_pow0(ALPHABET_SIZE as int);
    }
    while done < prefix_len
        invariant
            done <= prefix_len,
            total == pow(ALPHABET_SIZE as int, done as nat),
        decreases prefix_len - done,
    {
        proof {
            vstd::arithmetic::power::lemma_pow_adds(ALPHABET_SIZE as int, done as nat, 1);
            vstd::arithmetic::power::lemma_pow1(ALPHABET_SIZE as int);
        }
        match total.checked_mul(ALPHABET_SIZE) {
            Some(next) => {
                total = next;
                done = done + 1;
            },
            None => {
                proof {
                    lemma_pow_increases(ALPHABET_SIZE as nat, (done + 1) as nat, prefix_len as nat);
                }
                return None;
            },
        }
    }
    Some(total)
}

} // verus!
