//! Strings as sequences of characters and as UTF-8 bytes.

use vstd::prelude::*;
use vstd::string::StringExecFns;
use vstd::utf8::*;

verus! {

broadcast use vstd::seq_lib::group_seq_properties;

// ---------------------------------------------------------------------------
// Characters
// ---------------------------------------------------------------------------
/// Number of bytes that UTF-8 spends on `c`.
pub open spec fn char_width(c: char) -> nat {
    if c as u32 <= 0x7f {
        1
    } else if c as u32 <= 0x7ff {
        2
    } else if c as u32 <= 0xffff {
        3
    } else {
        4
    }
}

/// Number of 16-bit units that UTF-16 spends on `c`.
pub open spec fn char_units(c: char) -> nat {
    if c as u32 <= 0xffff {
        1
    } else {
        2
    }
}

/// Whether `c` has the Unicode property `White_Space`.
pub open spec fn is_whitespace(c: char) -> bool {
    let v = c as u32;
    ||| 0x9 <= v <= 0xd
    ||| v == 0x20
    ||| v == 0x85
    ||| v == 0xa0
    ||| v == 0x1680
    ||| 0x2000 <= v <= 0x200a
    ||| v == 0x2028
    ||| v == 0x2029
    ||| v == 0x202f
    ||| v == 0x205f
    ||| v == 0x3000
}

/// Whether `c` has the Unicode general category `Cc`.
pub open spec fn is_control(c: char) -> bool {
    let v = c as u32;
    v <= 0x1f || 0x7f <= v <= 0x9f
}

/// The UTF-8 encoding of `s`.
#[verifier::opaque]
pub open spec fn bytes_of(s: Seq<char>) -> Seq<u8> {
    encode_utf8(s)
}

/// Length of the UTF-8 encoding of `s`.
pub open spec fn byte_len(s: Seq<char>) -> nat {
    bytes_of(s).len()
}

/// Length of the UTF-16 encoding of `s`, in 16-bit units.
pub open spec fn unit_len(s: Seq<char>) -> nat
    decreases s.len(),
{
    if s.len() == 0 {
        0
    } else {
        unit_len(s.drop_last()) + char_units(s.last())
    }
}

/// Whether `at` is an offset between two characters of `s`, or at one of its ends.
#[verifier::opaque]
pub open spec fn on_boundary(s: Seq<char>, at: int) -> bool {
    is_char_boundary(bytes_of(s), at)
}

/// Appends a character to a string, as `String::push` does.
pub assume_specification[ String::push ](s: &mut String, c: char)
    ensures
        final(s)@ == old(s)@.push(c),
;

pub fn char_len(c: char) -> (n: usize)
    ensures
        n == char_width(c),
        1 <= n <= 4,
{
    let v = c as u32;
    if v <= 0x7f {
        1
    } else if v <= 0x7ff {
        2
    } else if v <= 0xffff {
        3
    } else {
        4
    }
}

pub fn char_unit_count(c: char) -> (n: usize)
    ensures
        n == char_units(c),
        1 <= n <= 2,
{
    if c as u32 <= 0xffff {
        1
    } else {
        2
    }
}

pub fn char_is_whitespace(c: char) -> (b: bool)
    ensures
        b == is_whitespace(c),
{
    let v = c as u32;
    (0x9 <= v && v <= 0xd) || v == 0x20 || v == 0x85 || v == 0xa0 || v == 0x1680 || (0x2000 <= v
        && v <= 0x200a) || v == 0x2028 || v == 0x2029 || v == 0x202f || v == 0x205f || v == 0x3000
}

pub fn char_is_control(c: char) -> (b: bool)
    ensures
        b == is_control(c),
{
    let v = c as u32;
    v <= 0x1f || (0x7f <= v && v <= 0x9f)
}

// ---------------------------------------------------------------------------
// Bytes of a concatenation
// ---------------------------------------------------------------------------
/// The encoding of one character has as many bytes as its width says.
pub proof fn lemma_char_bytes(c: char)
    ensures
        bytes_of(seq![c]).len() == char_width(c),
        bytes_of(seq![c]) == encode_scalar(c as u32),
{
    reveal(bytes_of);
    let s = seq![c];
    assert(s.drop_first() =~= Seq::<char>::empty());
    reveal_with_fuel(encode_utf8, 2);
    assert(encode_utf8(s) =~= encode_scalar(c as u32));
}

/// Encoding distributes over concatenation.
pub proof fn lemma_bytes_concat(a: Seq<char>, b: Seq<char>)
    ensures
        bytes_of(a + b) == bytes_of(a) + bytes_of(b),
        byte_len(a + b) == byte_len(a) + byte_len(b),
    decreases a.len(),
{
    reveal(bytes_of);
    if a.len() == 0 {
        assert(a + b =~= b);
        assert(bytes_of(a) + bytes_of(b) =~= bytes_of(b));
    } else {
        lemma_bytes_concat(a.drop_first(), b);
        assert((a + b).drop_first() =~= a.drop_first() + b);
        assert((a + b)[0] == a[0]);
        assert(bytes_of(a + b) =~= bytes_of(a) + bytes_of(b));
    }
}

pub proof fn lemma_bytes_push(a: Seq<char>, c: char)
    ensures
        bytes_of(a.push(c)) == bytes_of(a) + encode_scalar(c as u32),
        byte_len(a.push(c)) == byte_len(a) + char_width(c),
{
    assert(a.push(c) =~= a + seq![c]);
    lemma_bytes_concat(a, seq![c]);
    lemma_char_bytes(c);
}

/// Two texts with the same bytes are the same text.
pub proof fn lemma_bytes_injective(a: Seq<char>, b: Seq<char>)
    requires
        bytes_of(a) == bytes_of(b),
    ensures
        a == b,
{
    reveal(bytes_of);
    encode_utf8_decode_utf8(a);
    encode_utf8_decode_utf8(b);
}

/// A text is at least as long in bytes as it is in characters.
pub proof fn lemma_byte_len_bound(s: Seq<char>)
    ensures
        s.len() <= byte_len(s) <= 4 * s.len(),
    decreases s.len(),
{
    reveal(bytes_of);
    if s.len() > 0 {
        lemma_byte_len_bound(s.drop_first());
        assert(s =~= seq![s[0]] + s.drop_first());
        lemma_bytes_concat(seq![s[0]], s.drop_first());
        lemma_char_bytes(s[0]);
    } else {
        assert(encode_utf8(s).len() == 0);
    }
}

/// The offset that follows a prefix of whole characters is a boundary.
pub proof fn lemma_prefix_boundary(a: Seq<char>, b: Seq<char>)
    ensures
        on_boundary(a + b, byte_len(a) as int),
        bytes_of(a + b).subrange(0, byte_len(a) as int) == bytes_of(a),
        bytes_of(a + b).subrange(byte_len(a) as int, byte_len(a + b) as int) == bytes_of(b),
    decreases a.len(),
{
    reveal(bytes_of);
    reveal(on_boundary);
    lemma_bytes_concat(a, b);
    encode_utf8_valid_utf8(a + b);
    encode_utf8_valid_utf8(b);
    assert(bytes_of(a + b).subrange(0, byte_len(a) as int) =~= bytes_of(a));
    assert(bytes_of(a + b).subrange(byte_len(a) as int, byte_len(a + b) as int) =~= bytes_of(b));
    if a.len() == 0 {
        is_char_boundary_start_end_of_seq(bytes_of(a + b));
    } else if b.len() == 0 {
        assert(a + b =~= a);
        is_char_boundary_start_end_of_seq(bytes_of(a));
    } else {
        // The byte that follows starts a character, so it is no continuation byte.
        let whole = bytes_of(a + b);
        let at = byte_len(a) as int;
        assert(bytes_of(b)[0] == encode_scalar(b[0] as u32)[0]);
        assert(whole[at] == bytes_of(b)[0]);
        encode_utf8_first_scalar(b);
        lemma_byte_len_bound(b);
        is_char_boundary_start_end_of_seq(bytes_of(b));
        is_char_boundary_iff_not_is_continuation_byte(bytes_of(b), 0);
        is_char_boundary_iff_not_is_continuation_byte(whole, at);
    }
}

/// Splitting a text at a boundary yields two texts.
pub proof fn lemma_split(s: Seq<char>, at: int)
    requires
        on_boundary(s, at),
    ensures
        0 <= at <= byte_len(s),
        0 <= split_index(s, at) <= s.len(),
        byte_len(s.take(split_index(s, at))) == at,
        bytes_of(s.take(split_index(s, at))) == bytes_of(s).subrange(0, at),
        bytes_of(s.skip(split_index(s, at))) == bytes_of(s).subrange(at, byte_len(s) as int),
{
    reveal(bytes_of);
    reveal(on_boundary);
    encode_utf8_valid_utf8(s);
    lemma_boundary_range(bytes_of(s), at);
    let head = bytes_of(s).subrange(0, at);
    let tail = bytes_of(s).subrange(at, byte_len(s) as int);
    valid_utf8_split(bytes_of(s), at);
    decode_utf8_split(bytes_of(s), at);
    encode_utf8_decode_utf8(s);
    decode_utf8_encode_utf8(head);
    decode_utf8_encode_utf8(tail);
    let k = decode_utf8(head).len() as int;
    assert(s.take(k) =~= decode_utf8(head));
    assert(s.skip(k) =~= decode_utf8(tail));
    assert(byte_len(s.take(k)) == at);
    assert(exists|i: int| 0 <= i <= s.len() && #[trigger] byte_len(s.take(i)) == at);
    let j = split_index(s, at);
    lemma_prefix_len_injective(s, j, k);
}

/// The number of characters before byte offset `at`.
pub open spec fn split_index(s: Seq<char>, at: int) -> int {
    choose|i: int| 0 <= i <= s.len() && #[trigger] byte_len(s.take(i)) == at
}

proof fn lemma_boundary_range(b: Seq<u8>, at: int)
    requires
        valid_utf8(b),
        is_char_boundary(b, at),
    ensures
        0 <= at <= b.len(),
    decreases b.len(),
{
    if at != 0 && b.len() == 0 {
    }
}

/// Longer prefixes have more bytes.
pub proof fn lemma_prefix_len_monotonic(s: Seq<char>, i: int, j: int)
    requires
        0 <= i < j <= s.len(),
    ensures
        byte_len(s.take(i)) < byte_len(s.take(j)),
        byte_len(s.take(i)) + (j - i) <= byte_len(s.take(j)),
{
    assert(s.take(j) =~= s.take(i) + s.subrange(i, j));
    lemma_bytes_concat(s.take(i), s.subrange(i, j));
    lemma_byte_len_bound(s.subrange(i, j));
}

pub proof fn lemma_prefix_len_injective(s: Seq<char>, i: int, j: int)
    requires
        0 <= i <= s.len(),
        0 <= j <= s.len(),
        byte_len(s.take(i)) == byte_len(s.take(j)),
    ensures
        i == j,
{
    if i < j {
        lemma_prefix_len_monotonic(s, i, j);
    } else if j < i {
        lemma_prefix_len_monotonic(s, j, i);
    }
}

/// A boundary is exactly an offset that some whole number of characters takes up.
pub proof fn lemma_boundary_iff_prefix(s: Seq<char>, at: int)
    ensures
        on_boundary(s, at) <==> exists|i: int|
            0 <= i <= s.len() && #[trigger] byte_len(s.take(i)) == at,
{
    if on_boundary(s, at) {
        lemma_split(s, at);
        assert(byte_len(s.take(split_index(s, at))) == at);
    }
    if exists|i: int| 0 <= i <= s.len() && #[trigger] byte_len(s.take(i)) == at {
        let i = choose|i: int| 0 <= i <= s.len() && #[trigger] byte_len(s.take(i)) == at;
        assert(s =~= s.take(i) + s.skip(i));
        lemma_prefix_boundary(s.take(i), s.skip(i));
    }
}

/// The ends of a text are boundaries.
pub proof fn lemma_ends_are_boundaries(s: Seq<char>)
    ensures
        on_boundary(s, 0),
        on_boundary(s, byte_len(s) as int),
{
    assert(s =~= s + Seq::<char>::empty());
    lemma_prefix_boundary(s, Seq::empty());
    assert(s =~= Seq::<char>::empty() + s);
    lemma_prefix_boundary(Seq::empty(), s);
    lemma_byte_len_bound(Seq::empty());
}

/// Boundaries within a prefix do not depend on what follows the prefix.
pub proof fn lemma_boundary_left(a: Seq<char>, x: Seq<char>, y: Seq<char>, at: int)
    requires
        on_boundary(a + x, at),
        at <= byte_len(a),
    ensures
        on_boundary(a + y, at),
{
    let s = a + x;
    lemma_split(s, at);
    let i = split_index(s, at);
    assert(s.take(a.len() as int) =~= a);
    if i > a.len() {
        lemma_prefix_len_monotonic(s, a.len() as int, i);
    }
    assert((a + y).take(i) =~= s.take(i));
    assert(byte_len((a + y).take(i)) == at);
    lemma_boundary_iff_prefix(a + y, at);
}

/// Boundaries within a suffix move with the start of the suffix.
pub proof fn lemma_boundary_right(a: Seq<char>, b: Seq<char>, c: Seq<char>, at: int)
    requires
        on_boundary(a + c, byte_len(a) + at),
        at >= 0,
    ensures
        on_boundary(b + c, byte_len(b) + at),
{
    let s = a + c;
    lemma_split(s, byte_len(a) + at);
    let i = split_index(s, byte_len(a) + at);
    assert(s.take(a.len() as int) =~= a);
    if i < a.len() {
        lemma_prefix_len_monotonic(s, i, a.len() as int);
    }
    let k = i - a.len();
    assert(s.take(i) =~= a + c.take(k));
    lemma_bytes_concat(a, c.take(k));
    let t = b + c;
    assert(t.take(b.len() + k) =~= b + c.take(k));
    lemma_bytes_concat(b, c.take(k));
    assert(byte_len(t.take(b.len() + k)) == byte_len(b) + at);
    lemma_boundary_iff_prefix(t, byte_len(b) + at);
}

// ---------------------------------------------------------------------------
// Building and cutting strings
// ---------------------------------------------------------------------------
/// The characters of a string.
pub fn to_chars(s: &str) -> (v: Vec<char>)
    ensures
        v@ == s@,
{
    let mut v: Vec<char> = Vec::new();
    for c in it: s.chars()
        invariant
            it.seq() == s@,
            v@ == it.seq().take(it.index() as int),
    {
        assert(it.seq().take(it.index() as int + 1) =~= it.seq().take(it.index() as int).push(c));
        v.push(c);
    }
    assert(s@.take(s@.len() as int) =~= s@);
    v
}

/// The string made of `chars[from..to]`.
pub fn from_chars(chars: &Vec<char>, from: usize, to: usize) -> (s: String)
    requires
        from <= to <= chars@.len(),
    ensures
        s@ == chars@.subrange(from as int, to as int),
{
    let mut s = String::new();
    let mut i: usize = from;
    while i < to
        invariant
            from <= i <= to <= chars@.len(),
            s@ == chars@.subrange(from as int, i as int),
        decreases to - i,
    {
        assert(chars@.subrange(from as int, i as int + 1) =~= chars@.subrange(
            from as int,
            i as int,
        ).push(chars@[i as int]));
        s.push(chars[i]);
        i += 1;
    }
    s
}

/// The byte length of a string.
pub fn str_len(s: &str) -> (n: usize)
    ensures
        n == byte_len(s@),
{
    proof {
        reveal(bytes_of);
    }
    s.as_bytes().len()
}

/// `text` cut in two at a boundary.
pub fn split_at<'a>(text: &'a str, at: usize) -> (r: (&'a str, &'a str))
    requires
        on_boundary(text@, at as int),
    ensures
        r.0@ == text@.take(split_index(text@, at as int)),
        r.1@ == text@.skip(split_index(text@, at as int)),
{
    proof {
        reveal(bytes_of);
        reveal(on_boundary);
    }
    let (head, tail) = text.split_at(at);
    proof {
        lemma_split(text@, at as int);
        lemma_bytes_injective(head@, text@.take(split_index(text@, at as int)));
        lemma_bytes_injective(tail@, text@.skip(split_index(text@, at as int)));
    }
    (head, tail)
}

/// Whether `at` is a boundary of `text`.
pub fn is_boundary(text: &str, at: usize) -> (b: bool)
    ensures
        b == on_boundary(text@, at as int),
{
    proof {
        reveal(bytes_of);
        reveal(on_boundary);
    }
    text.is_char_boundary(at)
}

/// `text` with the bytes `from..to` replaced by `with`.
pub fn replace_range(text: &str, from: usize, to: usize, with: &str) -> (r: String)
    requires
        from <= to,
        on_boundary(text@, from as int),
        on_boundary(text@, to as int),
    ensures
        bytes_of(r@) == bytes_of(text@).subrange(0, from as int) + bytes_of(with@) + bytes_of(
            text@,
        ).subrange(to as int, byte_len(text@) as int),
        r@ == text@.take(split_index(text@, from as int)) + with@ + text@.skip(
            split_index(text@, to as int),
        ),
{
    proof {
        reveal(bytes_of);
        reveal(on_boundary);
    }
    proof {
        lemma_split(text@, from as int);
        lemma_split(text@, to as int);
    }
    let (head, _rest) = text.split_at(from);
    let (_skipped, tail) = text.split_at(to);
    let mut r = String::from_str(head);
    r.append(with);
    r.append(tail);
    proof {
        lemma_bytes_injective(head@, text@.take(split_index(text@, from as int)));
        lemma_bytes_injective(tail@, text@.skip(split_index(text@, to as int)));
        lemma_bytes_concat(head@, with@);
        lemma_bytes_concat(head@ + with@, tail@);
    }
    r
}

/// The bytes `from..to` of `text`, as text.
pub fn slice(text: &str, from: usize, to: usize) -> (r: String)
    requires
        from <= to,
        on_boundary(text@, from as int),
        on_boundary(text@, to as int),
    ensures
        bytes_of(r@) == bytes_of(text@).subrange(from as int, to as int),
        r@ == text@.subrange(split_index(text@, from as int), split_index(text@, to as int)),
        split_index(text@, from as int) <= split_index(text@, to as int) <= text@.len(),
{
    proof {
        reveal(bytes_of);
        reveal(on_boundary);
    }
    let (head, _tail) = text.split_at(to);
    proof {
        lemma_split(text@, from as int);
        lemma_split(text@, to as int);
        let i = split_index(text@, from as int);
        let j = split_index(text@, to as int);
        if j < i {
            lemma_prefix_len_monotonic(text@, j, i);
        }
        lemma_bytes_injective(head@, text@.take(j));
        assert(head@.take(i) =~= text@.take(i));
        assert(head@ =~= head@.take(i) + head@.skip(i));
        lemma_prefix_boundary(head@.take(i), head@.skip(i));
        assert(bytes_of(head@).subrange(from as int, to as int) =~= bytes_of(text@).subrange(
            from as int,
            to as int,
        ));
    }
    let (_before, middle) = head.split_at(from);
    proof {
        let i = split_index(text@, from as int);
        let j = split_index(text@, to as int);
        lemma_bytes_injective(middle@, head@.skip(i));
        assert(head@.skip(i) =~= text@.subrange(i, j));
    }
    String::from_str(middle)
}

/// The largest boundary of `value` that is at most `position`.
pub fn clamp_to_char_boundary(value: &str, position: usize) -> (r: usize)
    ensures
        r <= position,
        r <= byte_len(value@),
        on_boundary(value@, r as int),
        forall|b: int|
            r < b <= position ==> !#[trigger] on_boundary(value@, b),
{
    proof {
        reveal(bytes_of);
        reveal(on_boundary);
    }
    proof {
        encode_utf8_valid_utf8(value@);
        is_char_boundary_start_end_of_seq(bytes_of(value@));
        assert forall|b: int| b > byte_len(value@) implies !#[trigger] on_boundary(value@, b) by {
            if on_boundary(value@, b) {
                lemma_split(value@, b);
            }
        }
    }
    let len: usize = str_len(value);
    let mut at: usize = if position < len { position } else { len };
    while at > 0 && !is_boundary(value, at)
        invariant
            at <= position,
            at <= byte_len(value@),
            on_boundary(value@, 0),
            forall|b: int| at < b <= position ==> !#[trigger] on_boundary(value@, b),
        decreases at,
    {
        at -= 1;
    }
    at
}

// ---------------------------------------------------------------------------
// Laws of characters
// ---------------------------------------------------------------------------
/// Of the characters of ASCII the space and the five from tab to carriage return are white space,
/// and those before the space and the last one are control characters. No letter, no digit and no
/// mark is either.
pub proof fn lemma_plain_characters(c: char)
    requires
        (c as u32) < 0x80,
    ensures
        is_whitespace(c) <==> c == ' ' || '\t' <= c <= '\r',
        is_control(c) <==> c < ' ' || c as u32 == 0x7f,
        '!' <= c <= '~' ==> !is_whitespace(c) && !is_control(c),
        char_width(c) == 1,
        char_units(c) == 1,
{
}

/// A character takes as many bytes as its encoding has, and as many units as it has halves: two
/// from the first that does not fit one.
pub proof fn lemma_sizes_of_characters(c: char)
    ensures
        char_width(c) == encode_scalar(c as u32).len(),
        char_units(c) == 2 <==> char_width(c) == 4,
        char_units(c) == 1 <==> char_width(c) < 4,
{
    lemma_char_bytes(c);
}

/// The length of a text in units is that of its parts together.
pub proof fn lemma_units_concat(a: Seq<char>, b: Seq<char>)
    ensures
        unit_len(a + b) == unit_len(a) + unit_len(b),
        unit_len(a) >= a.len(),
    decreases b.len(), a.len(),
{
    if b.len() == 0 {
        assert(a + b =~= a);
        if a.len() > 0 {
            lemma_units_concat(a.drop_last(), Seq::empty());
        }
    } else {
        lemma_units_concat(a, b.drop_last());
        assert((a + b).drop_last() =~= a + b.drop_last());
    }
}

/// The length of one character is that of the text that it is.
pub proof fn lemma_units_of_one(c: char)
    ensures
        unit_len(seq![c]) == char_units(c),
        unit_len(Seq::<char>::empty()) == 0,
{
    reveal_with_fuel(unit_len, 2);
    assert(seq![c].drop_last() =~= Seq::<char>::empty());
}

} // verus!
