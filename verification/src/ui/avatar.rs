//! The coloured disc that stands for an author.

use vstd::prelude::*;

use crate::strings::{trim, trimmed};
use crate::text::{bytes_of, to_chars};

verus! {

/// A number that is computed from bytes, for choosing a colour.
pub open spec fn hash_of(bytes: Seq<u8>) -> int
    decreases bytes.len(),
{
    if bytes.len() == 0 {
        0
    } else {
        (hash_of(bytes.drop_last()) * 31 + bytes.last() as int) % 0x1_0000_0000
    }
}

pub open spec fn avatar_colors() -> Seq<u32> {
    seq![
        0x6366f1,
        0x3b82f6,
        0x06b6d4,
        0x14b8a6,
        0x22c55e,
        0x84cc16,
        0xf59e0b,
        0xf97316,
        0xef4444,
        0xa855f7,
    ]
}

/// The colour of an author.
pub fn author_avatar_color(author: &str) -> (r: u32)
    ensures
        r == avatar_colors()[hash_of(bytes_of(author@)) % 10],
{
    let bytes = author.as_bytes();
    proof {
        reveal(bytes_of);
    }
    let mut hash: u64 = 0;
    let mut i: usize = 0;
    assert(bytes@.take(0) =~= Seq::<u8>::empty());
    while i < bytes.len()
        invariant
            i <= bytes@.len(),
            hash == hash_of(bytes@.take(i as int)),
            hash < 0x1_0000_0000,
        decreases bytes@.len() - i,
    {
        proof {
            let more = bytes@.take(i as int + 1);
            assert(more.drop_last() =~= bytes@.take(i as int));
            assert(more.last() == bytes@[i as int]);
        }
        hash = (hash * 31 + bytes[i] as u64) % 0x1_0000_0000;
        i = i + 1;
    }
    assert(bytes@.take(i as int) =~= bytes@);
    match hash % 10 {
        0 => 0x6366f1,
        1 => 0x3b82f6,
        2 => 0x06b6d4,
        3 => 0x14b8a6,
        4 => 0x22c55e,
        5 => 0x84cc16,
        6 => 0xf59e0b,
        7 => 0xf97316,
        8 => 0xef4444,
        _ => 0xa855f7,
    }
}

/// A character as a capital, as Unicode says.
pub uninterp spec fn uppercase(c: char) -> Seq<char>;

/// Calls `char::to_uppercase` and writes out what it gives, which depends on the character alone.
#[verifier::external_body]
pub(crate) fn to_uppercase(c: char) -> (r: String)
    ensures
        r@ == uppercase(c),
{
    c.to_uppercase().to_string()
}

/// What stands in the disc, given the first character of the name as a capital.
pub fn initial_or_mark(capital: Option<String>) -> (r: String)
    ensures
        r@ == match capital {
            Some(text) => text@,
            None => "?"@,
        },
{
    match capital {
        Some(text) => text,
        None => "?".to_string(),
    }
}

/// What stands in the disc: the first character of the name, or a question mark.
pub fn author_avatar_initial(author: &str) -> (r: String)
    ensures
        r@ == if trimmed(author@).len() > 0 {
            uppercase(trimmed(author@)[0])
        } else {
            "?"@
        },
{
    let name: String = trim(author);
    let chars: Vec<char> = to_chars(name.as_str());
    if chars.len() > 0 {
        initial_or_mark(Some(to_uppercase(chars[0])))
    } else {
        initial_or_mark(None)
    }
}

/// The number of a name is that of its bytes, the last one first: each byte counts thirty-one times
/// as much as the one behind it, and only the last thirty-two bits are kept.
pub proof fn lemma_hash(bytes: Seq<u8>, last: u8)
    ensures
        hash_of(Seq::empty()) == 0,
        hash_of(bytes.push(last)) == (hash_of(bytes) * 31 + last) % 0x1_0000_0000,
        0 <= hash_of(bytes) < 0x1_0000_0000,
    decreases bytes.len(),
{
    assert(bytes.push(last).drop_last() =~= bytes);
    if bytes.len() > 0 {
        lemma_hash(bytes.drop_last(), last);
    }
}

/// There are ten colours, and no two of them are the same.
pub proof fn lemma_avatar_colors(i: int, j: int)
    requires
        0 <= i < j < 10,
    ensures
        avatar_colors().len() == 10,
        avatar_colors()[i] != avatar_colors()[j],
{
}

} // verus!
