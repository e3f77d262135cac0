//! What the library takes from the Git library and from the standard library.

use vstd::prelude::*;
use vstd::utf8::{encode_utf8, valid_utf8};

use crate::text::byte_len;

verus! {

// ---------------------------------------------------------------------------
// git2
// ---------------------------------------------------------------------------
/// What `git2::Branch::name_is_valid` says of a name: whether Git accepts it for a branch, or
/// the message with which the check itself failed.
pub uninterp spec fn branch_name_check(name: Seq<char>) -> Result<bool, Seq<char>>;

/// Calls `git2::Branch::name_is_valid`. Its answer depends on the name alone. The call fails
/// on a name with a zero byte in it, which cannot be handed to the C library.
#[verifier::external_body]
pub(crate) fn git_branch_name_is_valid(name: &str) -> (r: Result<bool, String>)
    ensures
        match r {
            Ok(valid) => branch_name_check(name@) == Ok::<bool, Seq<char>>(valid),
            Err(message) => branch_name_check(name@) == Err::<bool, Seq<char>>(message@),
        },
        name@.contains('\0') ==> r is Err,
{
    match git2::Branch::name_is_valid(name) {
        Ok(valid) => Ok(valid),
        Err(err) => Err(err.message().to_string()),
    }
}

pub open spec fn is_hex_digit(c: char) -> bool {
    ('0' <= c && c <= '9') || ('a' <= c && c <= 'f') || ('A' <= c && c <= 'F')
}

/// Whether `s` can be read as an object id, in full or as the start of one.
pub open spec fn is_object_id(s: Seq<char>) -> bool {
    0 < byte_len(s) <= 40 && forall|i: int| 0 <= i < s.len() ==> is_hex_digit(#[trigger] s[i])
}

pub open spec fn lower_hex(c: char) -> char {
    if 'A' <= c && c <= 'F' {
        (c as u32 + 32) as char
    } else {
        c
    }
}

/// The object id that `s` is read as, in 40 lower-case digits: what is missing at the end is 0.
pub open spec fn object_id(s: Seq<char>) -> Seq<char> {
    Seq::new(40, |i: int| if i < s.len() { lower_hex(s[i]) } else { '0' })
}

/// Why `s` cannot be read as an object id.
pub open spec fn object_id_fault(s: Seq<char>) -> Seq<char> {
    if s.len() == 0 {
        "unable to parse OID - too short"@
    } else if byte_len(s) > 40 {
        "unable to parse OID - too long"@
    } else {
        "unable to parse OID - contains invalid characters"@
    }
}

/// Calls `git2::Oid::from_str` and writes the id out with `to_string`. A text is an id if it
/// has 1 to 40 hexadecimal digits; a shorter one is filled up with zeros.
#[verifier::external_body]
pub(crate) fn git_object_id(s: &str) -> (r: Result<String, String>)
    ensures
        match r {
            Ok(id) => is_object_id(s@) && id@ == object_id(s@),
            Err(message) => !is_object_id(s@) && message@ == object_id_fault(s@),
        },
{
    match git2::Oid::from_str(s) {
        Ok(oid) => Ok(oid.to_string()),
        Err(err) => Err(err.message().to_string()),
    }
}

// ---------------------------------------------------------------------------
// std
// ---------------------------------------------------------------------------
/// Calls `std::str::from_utf8`: the text that the bytes encode, if they are valid UTF-8.
#[verifier::external_body]
pub(crate) fn utf8_text(content: &[u8]) -> (r: Option<String>)
    ensures
        match r {
            Some(text) => encode_utf8(text@) == content@,
            None => !valid_utf8(content@),
        },
{
    match std::str::from_utf8(content) {
        Ok(text) => Some(text.to_string()),
        Err(_) => None,
    }
}

/// What `String::from_utf8_lossy` makes of bytes.
pub uninterp spec fn lossy_utf8(content: Seq<u8>) -> Seq<char>;

/// Calls `String::from_utf8_lossy`. Bytes that are valid UTF-8 give the text that they encode;
/// others are replaced, in a way that depends on the bytes alone.
#[verifier::external_body]
pub(crate) fn lossy_text(content: &[u8]) -> (r: String)
    ensures
        r@ == lossy_utf8(content@),
        valid_utf8(content@) ==> encode_utf8(r@) == content@,
{
    String::from_utf8_lossy(content).into_owned()
}

/// A commit is named by up to forty digits to the base of sixteen, in letters of either size. Its
/// full name has forty digits in small letters, and starts with the digits that were given.
pub proof fn lemma_object_ids(s: Seq<char>, i: int)
    requires
        is_object_id(s),
        0 <= i < 40,
    ensures
        0 < s.len() <= 40,
        object_id(s).len() == 40,
        '0' <= object_id(s)[i] <= '9' || 'a' <= object_id(s)[i] <= 'f',
        i < s.len() && ('0' <= s[i] <= '9' || 'a' <= s[i] <= 'f') ==> object_id(s)[i] == s[i],
        i < s.len() && 'A' <= s[i] <= 'F' ==> object_id(s)[i] as int == s[i] as int + 32,
        i >= s.len() ==> object_id(s)[i] == '0',
{
    crate::text::lemma_byte_len_bound(s);
    if i < s.len() {
        assert(is_hex_digit(s[i]));
    }
}

} // verus!
