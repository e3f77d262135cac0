//! The text of an input field, its caret and its selection.

use core::ops::Range;

use unicode_segmentation::UnicodeSegmentation;
use vstd::prelude::*;
use vstd::string::StringExecFns;

use crate::strings::repeat_char;
use crate::text::{
    byte_len, char_len, char_unit_count, char_units, clamp_to_char_boundary, is_boundary,
    lemma_boundary_iff_prefix, lemma_byte_len_bound, lemma_bytes_concat, lemma_bytes_push,
    lemma_ends_are_boundaries, lemma_prefix_boundary, lemma_prefix_len_injective,
    lemma_prefix_len_monotonic, lemma_split, on_boundary, replace_range, slice, split_index,
    str_len, to_chars, unit_len,
};

verus! {

// ---------------------------------------------------------------------------
// Grapheme clusters
// ---------------------------------------------------------------------------
/// The byte offsets at which the extended grapheme clusters of a text start.
pub uninterp spec fn grapheme_starts(text: Seq<char>) -> Seq<usize>;

/// Calls `UnicodeSegmentation::grapheme_indices` with extended clusters and keeps the offsets.
/// The clusters are the parts that the text falls into, none of them empty, so their offsets
/// grow, lie between characters, and begin with 0 unless the text is empty.
#[verifier::external_body]
fn grapheme_offsets(text: &str) -> (r: Vec<usize>)
    ensures
        r@ == grapheme_starts(text@),
        forall|i: int, j: int| 0 <= i < j < r@.len() ==> (#[trigger] r@[i]) < (#[trigger] r@[j]),
        forall|i: int|
            0 <= i < r@.len() ==> (#[trigger] r@[i]) < byte_len(text@) && on_boundary(
                text@,
                r@[i] as int,
            ),
        text@.len() == 0 ==> r@.len() == 0,
        text@.len() > 0 ==> r@.len() > 0 && r@[0] == 0,
{
    text.grapheme_indices(true).map(|(offset, _)| offset).collect()
}

/// The last start before `offset`, or 0.
pub open spec fn start_before(starts: Seq<usize>, offset: int) -> int
    decreases starts.len(),
{
    if starts.len() == 0 {
        0
    } else if starts.last() < offset {
        starts.last() as int
    } else {
        start_before(starts.drop_last(), offset)
    }
}

/// The first start after `offset`, or `len`.
pub open spec fn start_after(starts: Seq<usize>, offset: int, len: int) -> int
    decreases starts.len(),
{
    if starts.len() == 0 {
        len
    } else if starts[0] > offset {
        starts[0] as int
    } else {
        start_after(starts.drop_first(), offset, len)
    }
}

/// The last start before `offset`, or 0.
pub fn previous_start(starts: &Vec<usize>, offset: usize) -> (r: usize)
    ensures
        r == start_before(starts@, offset as int),
        r == 0 || (r < offset && starts@.contains(r)),
{
    let mut n: usize = starts.len();
    assert(starts@.take(n as int) =~= starts@);
    while n > 0
        invariant
            n <= starts@.len(),
            start_before(starts@, offset as int) == start_before(
                starts@.take(n as int),
                offset as int,
            ),
        decreases n,
    {
        assert(starts@.take(n as int).drop_last() =~= starts@.take(n as int - 1));
        if starts[n - 1] < offset {
            return starts[n - 1];
        }
        n = n - 1;
    }
    0
}

/// The first start after `offset`, or `len`.
pub fn next_start(starts: &Vec<usize>, offset: usize, len: usize) -> (r: usize)
    ensures
        r == start_after(starts@, offset as int, len as int),
        r == len || (r > offset && starts@.contains(r)),
{
    let mut n: usize = 0;
    assert(starts@.skip(0) =~= starts@);
    while n < starts.len()
        invariant
            n <= starts@.len(),
            start_after(starts@, offset as int, len as int) == start_after(
                starts@.skip(n as int),
                offset as int,
                len as int,
            ),
        decreases starts@.len() - n,
    {
        assert(starts@.skip(n as int).drop_first() =~= starts@.skip(n as int + 1));
        if starts[n] > offset {
            return starts[n];
        }
        n = n + 1;
    }
    len
}

// ---------------------------------------------------------------------------
// UTF-16 offsets
// ---------------------------------------------------------------------------
/// Number of characters, from `k` on, that it takes to reach `units` 16-bit units.
pub open spec fn chars_to_units(s: Seq<char>, units: int, k: int) -> int
    decreases s.len() - k,
{
    if k < 0 || k >= s.len() || unit_len(s.take(k)) >= units {
        k
    } else {
        chars_to_units(s, units, k + 1)
    }
}

/// Number of characters, from `k` on, that it takes to reach `bytes` bytes.
pub open spec fn chars_to_bytes(s: Seq<char>, bytes: int, k: int) -> int
    decreases s.len() - k,
{
    if k < 0 || k >= s.len() || byte_len(s.take(k)) >= bytes {
        k
    } else {
        chars_to_bytes(s, bytes, k + 1)
    }
}

/// The byte offset of a UTF-16 offset. One inside a character goes to the end of it.
pub open spec fn utf8_offset(s: Seq<char>, units: int) -> int {
    byte_len(s.take(chars_to_units(s, units, 0))) as int
}

/// The UTF-16 offset of a byte offset. One inside a character goes to the end of it.
pub open spec fn utf16_offset(s: Seq<char>, bytes: int) -> int {
    unit_len(s.take(chars_to_bytes(s, bytes, 0))) as int
}

pub proof fn lemma_unit_len_push(s: Seq<char>, c: char)
    ensures
        unit_len(s.push(c)) == unit_len(s) + char_units(c),
{
    assert(s.push(c).drop_last() =~= s);
}

pub proof fn lemma_unit_len_bound(s: Seq<char>)
    ensures
        s.len() <= unit_len(s) <= byte_len(s),
    decreases s.len(),
{
    if s.len() > 0 {
        lemma_unit_len_bound(s.drop_last());
        assert(s =~= s.drop_last().push(s.last()));
        lemma_bytes_push(s.drop_last(), s.last());
    } else {
        lemma_byte_len_bound(s);
    }
}

proof fn lemma_chars_to_units(s: Seq<char>, units: int, k: int)
    requires
        0 <= k <= s.len(),
    ensures
        k <= chars_to_units(s, units, k) <= s.len(),
        chars_to_units(s, units, k) < s.len() ==> unit_len(s.take(chars_to_units(s, units, k)))
            >= units,
        forall|i: int|
            k <= i < chars_to_units(s, units, k) ==> unit_len(#[trigger] s.take(i)) < units,
    decreases s.len() - k,
{
    if k < s.len() && unit_len(s.take(k)) < units {
        lemma_chars_to_units(s, units, k + 1);
    }
}

proof fn lemma_chars_to_bytes(s: Seq<char>, bytes: int, k: int)
    requires
        0 <= k <= s.len(),
    ensures
        k <= chars_to_bytes(s, bytes, k) <= s.len(),
        chars_to_bytes(s, bytes, k) < s.len() ==> byte_len(s.take(chars_to_bytes(s, bytes, k)))
            >= bytes,
        forall|i: int|
            k <= i < chars_to_bytes(s, bytes, k) ==> byte_len(#[trigger] s.take(i)) < bytes,
    decreases s.len() - k,
{
    if k < s.len() && byte_len(s.take(k)) < bytes {
        lemma_chars_to_bytes(s, bytes, k + 1);
    }
}

proof fn lemma_unit_len_monotonic(s: Seq<char>, i: int, j: int)
    requires
        0 <= i < j <= s.len(),
    ensures
        unit_len(s.take(i)) < unit_len(s.take(j)),
    decreases j - i,
{
    assert(s.take(j) =~= s.take(j - 1).push(s[j - 1]));
    lemma_unit_len_push(s.take(j - 1), s[j - 1]);
    if i < j - 1 {
        lemma_unit_len_monotonic(s, i, j - 1);
    }
}

/// A byte offset that comes from a UTF-16 offset lies between characters.
pub proof fn lemma_utf8_offset_boundary(s: Seq<char>, units: int)
    ensures
        on_boundary(s, utf8_offset(s, units)),
        0 <= utf8_offset(s, units) <= byte_len(s),
{
    lemma_chars_to_units(s, units, 0);
    let k = chars_to_units(s, units, 0);
    assert(byte_len(s.take(k)) == utf8_offset(s, units));
    lemma_boundary_iff_prefix(s, utf8_offset(s, units));
    lemma_split(s, utf8_offset(s, units));
}

/// Larger UTF-16 offsets have larger byte offsets.
pub proof fn lemma_utf8_offset_monotonic(s: Seq<char>, a: int, b: int)
    requires
        a <= b,
    ensures
        utf8_offset(s, a) <= utf8_offset(s, b),
{
    lemma_chars_to_units(s, a, 0);
    lemma_chars_to_units(s, b, 0);
    let i = chars_to_units(s, a, 0);
    let j = chars_to_units(s, b, 0);
    if j < i {
        // At `j` the text has at least `b` units already, so `i` cannot go past it.
        assert(unit_len(s.take(j)) < a);
    }
    if i < j {
        lemma_prefix_len_monotonic(s, i, j);
    }
}

/// An offset between characters comes back from UTF-16 unchanged.
pub proof fn lemma_utf16_round_trip(s: Seq<char>, at: int)
    requires
        on_boundary(s, at),
    ensures
        utf8_offset(s, utf16_offset(s, at)) == at,
{
    lemma_split(s, at);
    let k = split_index(s, at);
    lemma_chars_to_bytes(s, at, 0);
    let b = chars_to_bytes(s, at, 0);
    if b < k {
        lemma_prefix_len_monotonic(s, b, k);
    } else if k < b {
        assert(byte_len(s.take(k)) < at);
    }
    let units = utf16_offset(s, at);
    lemma_chars_to_units(s, units, 0);
    let u = chars_to_units(s, units, 0);
    if u < k {
        lemma_unit_len_monotonic(s, u, k);
    } else if k < u {
        assert(unit_len(s.take(k)) < units);
    }
}

/// The byte offset of a UTF-16 offset into `text`.
pub fn offset_from_utf16_in_text(text: &str, offset: usize) -> (r: usize)
    ensures
        r == utf8_offset(text@, offset as int),
{
    let total: usize = str_len(text);
    let chars: Vec<char> = to_chars(text);
    let mut utf8: usize = 0;
    let mut utf16: usize = 0;
    let mut k: usize = 0;
    proof {
        lemma_byte_len_bound(chars@.take(0));
    }
    while k < chars.len() && utf16 < offset
        invariant
            k <= chars@.len(),
            total == byte_len(chars@),
            utf8 == byte_len(chars@.take(k as int)),
            utf16 == unit_len(chars@.take(k as int)),
            chars_to_units(chars@, offset as int, 0) == chars_to_units(
                chars@,
                offset as int,
                k as int,
            ),
        decreases chars@.len() - k,
    {
        proof {
            let head = chars@.take(k as int);
            let more = chars@.take(k as int + 1);
            assert(more =~= head.push(chars@[k as int]));
            lemma_bytes_push(head, chars@[k as int]);
            lemma_unit_len_push(head, chars@[k as int]);
            lemma_unit_len_bound(more);
            assert(chars@ =~= more + chars@.skip(k as int + 1));
            lemma_bytes_concat(more, chars@.skip(k as int + 1));
        }
        utf16 = utf16 + char_unit_count(chars[k]);
        utf8 = utf8 + char_len(chars[k]);
        k = k + 1;
    }
    utf8
}

/// The UTF-16 offset of a byte offset into `text`.
pub fn offset_to_utf16_in_text(text: &str, offset: usize) -> (r: usize)
    ensures
        r == utf16_offset(text@, offset as int),
{
    let total: usize = str_len(text);
    let chars: Vec<char> = to_chars(text);
    let mut utf8: usize = 0;
    let mut utf16: usize = 0;
    let mut k: usize = 0;
    proof {
        lemma_byte_len_bound(chars@.take(0));
    }
    while k < chars.len() && utf8 < offset
        invariant
            k <= chars@.len(),
            total == byte_len(chars@),
            utf8 == byte_len(chars@.take(k as int)),
            utf16 == unit_len(chars@.take(k as int)),
            chars_to_bytes(chars@, offset as int, 0) == chars_to_bytes(
                chars@,
                offset as int,
                k as int,
            ),
        decreases chars@.len() - k,
    {
        proof {
            let head = chars@.take(k as int);
            let more = chars@.take(k as int + 1);
            assert(more =~= head.push(chars@[k as int]));
            lemma_bytes_push(head, chars@[k as int]);
            lemma_unit_len_push(head, chars@[k as int]);
            lemma_unit_len_bound(more);
            assert(chars@ =~= more + chars@.skip(k as int + 1));
            lemma_bytes_concat(more, chars@.skip(k as int + 1));
        }
        utf16 = utf16 + char_unit_count(chars[k]);
        utf8 = utf8 + char_len(chars[k]);
        k = k + 1;
    }
    utf16
}

// ---------------------------------------------------------------------------
// Text that goes into one line
// ---------------------------------------------------------------------------
pub open spec fn is_no_break(c: char) -> bool {
    c != '\r' && c != '\n'
}

/// A text without its line breaks.
pub open spec fn without_breaks(s: Seq<char>) -> Seq<char> {
    s.filter(|c: char| is_no_break(c))
}

pub fn strip_breaks(s: &str) -> (r: String)
    ensures
        r@ == without_breaks(s@),
{
    let x: Vec<char> = to_chars(s);
    let mut r = String::new();
    let mut i: usize = 0;
    let ghost keep = |c: char| is_no_break(c);
    assert(x@.take(0).filter(keep) =~= Seq::<char>::empty());
    while i < x.len()
        invariant
            i <= x@.len(),
            keep == (|c: char| is_no_break(c)),
            r@ == x@.take(i as int).filter(keep),
        decreases x@.len() - i,
    {
        proof {
            assert(x@.take(i as int + 1) =~= x@.take(i as int).push(x@[i as int]));
            x@.take(i as int).lemma_filter_push(x@[i as int], keep);
        }
        if x[i] != '\r' && x[i] != '\n' {
            r.push(x[i]);
        }
        i = i + 1;
    }
    assert(x@.take(i as int) =~= x@);
    r
}

/// What goes into a field when `text` is typed or pasted.
pub open spec fn accepted(text: Seq<char>, multiline: bool) -> Seq<char> {
    if multiline {
        text
    } else {
        without_breaks(text)
    }
}

// ---------------------------------------------------------------------------
// Widths
// ---------------------------------------------------------------------------
pub open spec fn is_wide(c: char) -> bool {
    let v = c as u32;
    ||| 0x1100 <= v <= 0x11ff
    ||| 0x2e80 <= v <= 0xa4cf
    ||| 0xac00 <= v <= 0xd7af
    ||| 0xf900 <= v <= 0xfaff
    ||| 0xfe10 <= v <= 0xfe6f
    ||| 0xff00 <= v <= 0xffef
}

/// Whether a character is drawn about twice as wide as a Latin letter.
pub fn ch_width_is_wide(ch: char) -> (r: bool)
    ensures
        r == is_wide(ch),
{
    let v: u32 = ch as u32;
    (0x1100 <= v && v <= 0x11ff) || (0x2e80 <= v && v <= 0xa4cf) || (0xac00 <= v && v <= 0xd7af)
        || (0xf900 <= v && v <= 0xfaff) || (0xfe10 <= v && v <= 0xfe6f) || (0xff00 <= v && v
        <= 0xffef)
}

/// The width that a character is taken to have, in quarters of a pixel.
pub open spec fn approx_width(c: char) -> nat {
    if c == '\t' {
        112
    } else if c as u32 <= 0x7f {
        28
    } else if is_wide(c) {
        56
    } else {
        34
    }
}

pub fn approx_input_char_width(ch: char) -> (r: i64)
    ensures
        r == approx_width(ch),
{
    if ch == '\t' {
        112
    } else if ch as u32 <= 0x7f {
        28
    } else if ch_width_is_wide(ch) {
        56
    } else {
        34
    }
}

/// The first character from `k` on whose middle is right of `x`, if the ones before it start
/// at `left`; the number of characters if there is none.
pub open spec fn char_under(s: Seq<char>, x: int, left: int, k: int) -> int
    decreases s.len() - k,
{
    if k < 0 || k >= s.len() || x < left + approx_width(s[k]) / 2 {
        k
    } else {
        char_under(s, x, left + approx_width(s[k]), k + 1)
    }
}

/// Where a click hit a field.
#[derive(Clone, Copy, Debug, PartialEq, Eq, Structural)]
pub enum ClickedPlace {
    Above,
    Below,
    /// On the line, at this byte of the shown text.
    On(usize),
    /// The field was not drawn yet.
    NotDrawn,
}

// ---------------------------------------------------------------------------
// The field
// ---------------------------------------------------------------------------
/// The text of a field. Offsets count bytes.
#[derive(Debug)]
pub struct TextEditState {
    pub value: String,
    /// Whether the text is shown as stars.
    pub secret: bool,
    pub caret: usize,
    /// The other end of the selection.
    pub selection_anchor: Option<usize>,
    /// What an input method is still composing.
    pub marked_range: Option<Range<usize>>,
    pub is_selecting: bool,
}

pub open spec fn marks(r: Range<usize>, s: Seq<char>) -> bool {
    r.start <= r.end && on_boundary(s, r.start as int) && on_boundary(s, r.end as int)
}

/// `s` with what lies between the byte offsets `from` and `to` replaced by `with`.
pub open spec fn spliced(s: Seq<char>, from: int, to: int, with: Seq<char>) -> Seq<char> {
    s.take(split_index(s, from)) + with + s.skip(split_index(s, to))
}

/// The place behind an inserted text is a boundary.
proof fn lemma_spliced(s: Seq<char>, from: int, to: int, with: Seq<char>)
    requires
        from <= to,
        on_boundary(s, from),
        on_boundary(s, to),
    ensures
        on_boundary(spliced(s, from, to, with), from),
        on_boundary(spliced(s, from, to, with), from + byte_len(with)),
        byte_len(spliced(s, from, to, with)) == byte_len(s) + byte_len(with) - (to - from),
        0 <= from,
        to <= byte_len(s),
{
    lemma_split(s, from);
    lemma_split(s, to);
    let a = s.take(split_index(s, from));
    let c = s.skip(split_index(s, to));
    let new = spliced(s, from, to, with);
    assert(new =~= a + (with + c));
    assert(new =~= (a + with) + c);
    lemma_prefix_boundary(a, with + c);
    lemma_prefix_boundary(a + with, c);
    lemma_bytes_concat(a, with);
    lemma_bytes_concat(a + with, c);
}

/// A boundary inside the inserted text is one of the whole.
proof fn lemma_spliced_inside(s: Seq<char>, from: int, to: int, with: Seq<char>, at: int)
    requires
        from <= to,
        on_boundary(s, from),
        on_boundary(s, to),
        on_boundary(with, at),
    ensures
        on_boundary(spliced(s, from, to, with), from + at),
        0 <= at <= byte_len(with),
{
    lemma_split(s, from);
    lemma_split(with, at);
    let a = s.take(split_index(s, from));
    let c = s.skip(split_index(s, to));
    let w1 = with.take(split_index(with, at));
    let w2 = with.skip(split_index(with, at));
    assert(with =~= w1 + w2);
    let new = spliced(s, from, to, with);
    assert(new =~= (a + w1) + (w2 + c));
    lemma_prefix_boundary(a + w1, w2 + c);
    lemma_bytes_concat(a, w1);
}

/// A replacement is undone by putting back what it took out.
pub proof fn lemma_replacement_is_undone(s: Seq<char>, from: int, to: int, with: Seq<char>)
    requires
        from <= to,
        on_boundary(s, from),
        on_boundary(s, to),
    ensures
        ({
            let taken = s.subrange(split_index(s, from), split_index(s, to));
            spliced(spliced(s, from, to, with), from, from + byte_len(with), taken) == s
        }),
{
    lemma_split(s, from);
    lemma_split(s, to);
    lemma_spliced(s, from, to, with);
    let i = split_index(s, from);
    let j = split_index(s, to);
    if j < i {
        lemma_prefix_len_monotonic(s, j, i);
    }
    let new = spliced(s, from, to, with);
    lemma_split(new, from);
    lemma_split(new, from + byte_len(with));
    assert(new.take(i) =~= s.take(i));
    assert(new.take(i + with.len()) =~= s.take(i) + with);
    lemma_bytes_concat(s.take(i), with);
    lemma_prefix_len_injective(new, i, split_index(new, from));
    lemma_prefix_len_injective(
        new,
        (i + with.len()) as int,
        split_index(new, from + byte_len(with)),
    );
    let taken = s.subrange(i, j);
    assert(new.skip((i + with.len()) as int) =~= s.skip(j));
    assert(s.take(i) + taken + s.skip(j) =~= s);
}

/// Whether `at` is the last place between characters that is not behind `position`.
pub open spec fn is_clamped(s: Seq<char>, position: int, at: int) -> bool {
    &&& on_boundary(s, at)
    &&& at <= position
    &&& forall|b: int| at < b <= position ==> !#[trigger] on_boundary(s, b)
}

impl TextEditState {
    /// The caret, the selection and the marked text lie between characters.
    pub open spec fn wf(self) -> bool {
        &&& on_boundary(self.value@, self.caret as int)
        &&& self.selection_anchor matches Some(a) ==> on_boundary(self.value@, a as int)
        &&& self.marked_range matches Some(r) ==> marks(r, self.value@)
    }

    /// The ends of the selection, if something is selected.
    pub open spec fn selection(self) -> Option<(int, int)> {
        match self.selection_anchor {
            Some(a) => if a == self.caret {
                None
            } else if a < self.caret {
                Some((a as int, self.caret as int))
            } else {
                Some((self.caret as int, a as int))
            },
            None => None,
        }
    }

    /// What typing replaces: the selection, or nothing at the caret.
    pub open spec fn target(self) -> (int, int) {
        match self.selection() {
            Some(s) => s,
            None => (self.caret as int, self.caret as int),
        }
    }

    /// What typing replaces lies between characters. The marked text does not matter.
    pub open spec fn placed(self) -> bool {
        on_boundary(self.value@, self.target().0) && on_boundary(self.value@, self.target().1)
    }

    /// Whether what typing replaces lies between characters.
    pub fn is_placed(&self) -> (r: bool)
        ensures
            r == self.placed(),
    {
        let range: Range<usize> = self.input_range();
        is_boundary(self.value.as_str(), range.start) && is_boundary(
            self.value.as_str(),
            range.end,
        )
    }

    pub fn new() -> (r: Self)
        ensures
            r.wf(),
            r.value@.len() == 0,
            !r.secret,
            r.caret == 0,
            r.selection_anchor is None,
            r.marked_range is None,
            !r.is_selecting,
    {
        let value = String::new();
        proof {
            lemma_ends_are_boundaries(value@);
        }
        TextEditState {
            value,
            secret: false,
            caret: 0,
            selection_anchor: None,
            marked_range: None,
            is_selecting: false,
        }
    }

    /// A field that holds `value`, with the caret at its end.
    pub fn with_value(value: &str, secret: bool) -> (r: Self)
        ensures
            r.wf(),
            r.value@ == value@,
            r.secret == secret,
            r.caret == byte_len(value@),
            r.selection_anchor is None,
            r.marked_range is None,
            !r.is_selecting,
    {
        let mut r = TextEditState::new();
        r.secret = secret;
        r.set_value(String::from_str(value));
        r
    }

    pub fn set_value(&mut self, value: String)
        ensures
            final(self).wf(),
            final(self).value@ == value@,
            final(self).caret == byte_len(value@),
            final(self).selection_anchor is None,
            final(self).marked_range is None,
            !final(self).is_selecting,
            final(self).secret == old(self).secret,
    {
        let len: usize = str_len(value.as_str());
        proof {
            lemma_ends_are_boundaries(value@);
        }
        self.value = value;
        self.caret = len;
        self.selection_anchor = None;
        self.marked_range = None;
        self.is_selecting = false;
    }

    pub fn clear(&mut self)
        ensures
            final(self).wf(),
            final(self).value@.len() == 0,
            final(self).caret == 0,
            final(self).selection_anchor is None,
            final(self).marked_range is None,
            !final(self).is_selecting,
            final(self).secret == old(self).secret,
    {
        let empty = String::new();
        proof {
            lemma_byte_len_bound(empty@);
        }
        self.set_value(empty);
    }

    /// What is shown: the text, or a star for each character.
    pub fn display_text(&self) -> (r: String)
        ensures
            r@ == if self.secret {
                Seq::new(self.value@.len(), |i: int| '*')
            } else {
                self.value@
            },
    {
        if self.secret {
            let n: usize = to_chars(self.value.as_str()).len();
            repeat_char('*', n)
        } else {
            self.value.clone()
        }
    }

    /// The place in the shown text of an offset into the text.
    pub fn display_byte_for_value_byte(&self, value_byte: usize) -> (r: usize)
        requires
            self.secret ==> on_boundary(self.value@, value_byte as int),
        ensures
            r == if self.secret {
                split_index(self.value@, value_byte as int)
            } else {
                value_byte as int
            },
    {
        if self.secret {
            proof {
                lemma_ends_are_boundaries(self.value@);
            }
            let head: String = slice(self.value.as_str(), 0, value_byte);
            proof {
                lemma_split(self.value@, value_byte as int);
                lemma_split(self.value@, 0);
                let i = split_index(self.value@, 0);
                lemma_byte_len_bound(self.value@.take(i));
            }
            to_chars(head.as_str()).len()
        } else {
            value_byte
        }
    }

    /// Whether the offset `at` into the text is where the place `display_byte` of the shown text
    /// comes from: one star stands for each character, and otherwise the text shows itself.
    pub open spec fn is_shown_at(self, at: int, display_byte: int) -> bool {
        &&& on_boundary(self.value@, at)
        &&& self.secret ==> at == byte_len(
            if display_byte < self.value@.len() {
                self.value@.take(display_byte)
            } else {
                self.value@
            },
        )
        &&& !self.secret ==> at <= display_byte && forall|b: int|
            at < b <= display_byte ==> !#[trigger] on_boundary(self.value@, b)
    }

    /// The offset into the text of a place in the shown text.
    pub fn value_byte_for_display_byte(&self, display_byte: usize) -> (r: usize)
        ensures
            self.is_shown_at(r as int, display_byte as int),
    {
        if !self.secret {
            return clamp_to_char_boundary(self.value.as_str(), display_byte);
        }
        let total: usize = str_len(self.value.as_str());
        let chars: Vec<char> = to_chars(self.value.as_str());
        let mut at: usize = 0;
        let mut k: usize = 0;
        proof {
            lemma_byte_len_bound(chars@.take(0));
        }
        while k < chars.len() && k < display_byte
            invariant
                k <= chars@.len(),
                k <= display_byte,
                total == byte_len(chars@),
                at == byte_len(chars@.take(k as int)),
            decreases chars@.len() - k,
        {
            proof {
                let head = chars@.take(k as int);
                let more = chars@.take(k as int + 1);
                assert(more =~= head.push(chars@[k as int]));
                lemma_bytes_push(head, chars@[k as int]);
                assert(chars@ =~= more + chars@.skip(k as int + 1));
                lemma_bytes_concat(more, chars@.skip(k as int + 1));
            }
            at = at + char_len(chars[k]);
            k = k + 1;
        }
        proof {
            assert(byte_len(self.value@.take(k as int)) == at);
            lemma_boundary_iff_prefix(self.value@, at as int);
            if k == chars@.len() {
                assert(chars@.take(k as int) =~= chars@);
            }
        }
        at
    }

    /// The offset into the text of a place that was clicked.
    pub fn index_for_mouse_position(&self, place: ClickedPlace) -> (r: usize)
        ensures
            match place {
                ClickedPlace::Above | ClickedPlace::NotDrawn => r == 0,
                ClickedPlace::Below => r == byte_len(self.value@),
                ClickedPlace::On(display_byte) => self.is_shown_at(r as int, display_byte as int),
            },
    {
        let total: usize = str_len(self.value.as_str());
        match place {
            ClickedPlace::Above => 0,
            ClickedPlace::NotDrawn => 0,
            ClickedPlace::Below => total,
            ClickedPlace::On(display_byte) => self.value_byte_for_display_byte(display_byte),
        }
    }

    pub fn selected_range(&self) -> (r: Option<Range<usize>>)
        ensures
            match self.selection() {
                Some((a, b)) => r matches Some(x) && x.start == a && x.end == b,
                None => r is None,
            },
    {
        match self.selection_anchor {
            None => None,
            Some(anchor) => if anchor == self.caret {
                None
            } else if anchor < self.caret {
                Some(Range { start: anchor, end: self.caret })
            } else {
                Some(Range { start: self.caret, end: anchor })
            },
        }
    }

    pub fn input_range(&self) -> (r: Range<usize>)
        ensures
            (r.start as int, r.end as int) == self.target(),
    {
        match self.selected_range() {
            Some(r) => r,
            None => Range { start: self.caret, end: self.caret },
        }
    }

    pub fn selection_reversed(&self) -> (r: bool)
        ensures
            r == (self.selection_anchor matches Some(a) && self.caret < a),
    {
        match self.selection_anchor {
            Some(anchor) => self.caret < anchor,
            None => false,
        }
    }

    pub fn selected_text(&self) -> (r: Option<String>)
        requires
            self.selection() is Some ==> self.placed(),
        ensures
            match self.selection() {
                Some((a, b)) => r matches Some(t) && t@ == self.value@.subrange(
                    split_index(self.value@, a),
                    split_index(self.value@, b),
                ),
                None => r is None,
            },
    {
        match self.selected_range() {
            Some(range) => Some(slice(self.value.as_str(), range.start, range.end)),
            None => None,
        }
    }

    /// The selected text, unless it is a secret.
    pub fn copyable_selected_text(&self) -> (r: Option<String>)
        requires
            !self.secret && self.selection() is Some ==> self.placed(),
        ensures
            match self.selection() {
                Some((a, b)) if !self.secret => r matches Some(t) && t@ == self.value@.subrange(
                    split_index(self.value@, a),
                    split_index(self.value@, b),
                ),
                _ => r is None,
            },
    {
        if self.secret {
            None
        } else {
            self.selected_text()
        }
    }

    pub fn select_all(&mut self)
        ensures
            final(self).wf(),
            final(self).caret == byte_len(old(self).value@),
            final(self).selection_anchor == Some(0usize),
            final(self).marked_range is None,
            final(self).value == old(self).value,
            final(self).secret == old(self).secret,
            final(self).is_selecting == old(self).is_selecting,
    {
        let len: usize = str_len(self.value.as_str());
        proof {
            lemma_ends_are_boundaries(self.value@);
        }
        self.caret = len;
        self.selection_anchor = Some(0);
        self.marked_range = None;
    }

    /// Takes the selected text out. Says whether there was any.
    pub fn delete_selection(&mut self) -> (r: bool)
        requires
            old(self).selection() is Some ==> old(self).placed(),
        ensures
            r ==> final(self).wf(),
            r == old(self).selection() is Some,
            match old(self).selection() {
                Some((a, b)) => {
                    &&& final(self).value@ == spliced(old(self).value@, a, b, Seq::empty())
                    &&& final(self).caret == a
                    &&& final(self).selection_anchor is None
                    &&& final(self).marked_range is None
                    &&& final(self).secret == old(self).secret
                    &&& final(self).is_selecting == old(self).is_selecting
                },
                None => *final(self) == *old(self),
            },
    {
        match self.selected_range() {
            None => false,
            Some(range) => {
                let ghost before = self.value@;
                let value: String = replace_range(
                    self.value.as_str(),
                    range.start,
                    range.end,
                    "",
                );
                proof {
                    reveal_strlit("");
                    assert(""@ =~= Seq::<char>::empty());
                    lemma_spliced(before, range.start as int, range.end as int, Seq::empty());
                }
                self.value = value;
                self.caret = range.start;
                self.selection_anchor = None;
                self.marked_range = None;
                true
            },
        }
    }

    /// Puts `text` in place of the selection, or at the caret.
    pub fn insert_text(&mut self, text: &str, multiline: bool)
        requires
            old(self).placed(),
        ensures
            final(self).wf(),
            ({
                let (a, b) = old(self).target();
                let inserted = accepted(text@, multiline);
                &&& final(self).value@ == spliced(old(self).value@, a, b, inserted)
                &&& final(self).caret == a + byte_len(inserted)
            }),
            final(self).selection_anchor is None,
            final(self).marked_range is None,
            final(self).secret == old(self).secret,
            final(self).is_selecting == old(self).is_selecting,
    {
        let ghost before = self.value@;
        let range: Range<usize> = self.input_range();
        let inserted: String = if multiline {
            String::from_str(text)
        } else {
            strip_breaks(text)
        };
        let value: String = replace_range(
            self.value.as_str(),
            range.start,
            range.end,
            inserted.as_str(),
        );
        let total: usize = str_len(value.as_str());
        let added: usize = str_len(inserted.as_str());
        proof {
            lemma_spliced(before, range.start as int, range.end as int, inserted@);
            lemma_split(value@, range.start + added);
        }
        self.value = value;
        self.caret = range.start + added;
        self.selection_anchor = None;
        self.marked_range = None;
    }

    /// Takes out the selection, or the cluster before the caret. A stale anchor or marked range
    /// is left as it is.
    pub fn delete_backward(&mut self)
        requires
            old(self).placed(),
        ensures
            on_boundary(final(self).value@, final(self).caret as int),
            old(self).selection() is Some || old(self).selection_anchor is None ==> final(self).placed(),
            old(self).selection() is Some || (old(self).selection_anchor is None && old(
                self,
            ).marked_range is None) ==> final(self).wf(),
            match old(self).selection() {
                Some((a, b)) => {
                    &&& final(self).value@ == spliced(old(self).value@, a, b, Seq::empty())
                    &&& final(self).caret == a
                    &&& final(self).selection_anchor is None
                    &&& final(self).marked_range is None
                },
                None => {
                    let p = if old(self).caret == 0 {
                        0
                    } else {
                        start_before(grapheme_starts(old(self).value@), old(self).caret as int)
                    };
                    &&& final(self).value@ == spliced(
                        old(self).value@,
                        p,
                        old(self).caret as int,
                        Seq::empty(),
                    )
                    &&& final(self).caret == p
                    &&& final(self).selection_anchor == old(self).selection_anchor
                    &&& final(self).marked_range == old(self).marked_range
                },
            },
            final(self).secret == old(self).secret,
            final(self).is_selecting == old(self).is_selecting,
    {
        if self.delete_selection() {
            return;
        }
        let ghost before = self.value@;
        proof {
            lemma_empty_splice(before, self.caret as int);
        }
        if self.caret == 0 {
            return;
        }
        let previous: usize = self.previous_grapheme_boundary(self.caret);
        let value: String = replace_range(self.value.as_str(), previous, self.caret, "");
        proof {
            reveal_strlit("");
            assert(""@ =~= Seq::<char>::empty());
            lemma_spliced(before, previous as int, self.caret as int, Seq::empty());
        }
        self.value = value;
        self.caret = previous;
    }

    /// Takes out the selection, or the cluster behind the caret. A stale anchor or marked range
    /// is left as it is.
    pub fn delete_forward(&mut self)
        requires
            old(self).placed(),
        ensures
            on_boundary(final(self).value@, final(self).caret as int),
            final(self).placed(),
            old(self).selection() is Some || (old(self).selection_anchor is None && old(
                self,
            ).marked_range is None) ==> final(self).wf(),
            match old(self).selection() {
                Some((a, b)) => {
                    &&& final(self).value@ == spliced(old(self).value@, a, b, Seq::empty())
                    &&& final(self).caret == a
                    &&& final(self).selection_anchor is None
                    &&& final(self).marked_range is None
                },
                None => {
                    let n = if old(self).caret >= byte_len(old(self).value@) {
                        old(self).caret as int
                    } else {
                        start_after(
                            grapheme_starts(old(self).value@),
                            old(self).caret as int,
                            byte_len(old(self).value@) as int,
                        )
                    };
                    &&& final(self).value@ == spliced(
                        old(self).value@,
                        old(self).caret as int,
                        n,
                        Seq::empty(),
                    )
                    &&& final(self).caret == old(self).caret
                    &&& final(self).selection_anchor == old(self).selection_anchor
                    &&& final(self).marked_range == old(self).marked_range
                },
            },
            final(self).secret == old(self).secret,
            final(self).is_selecting == old(self).is_selecting,
    {
        if self.delete_selection() {
            return;
        }
        let ghost before = self.value@;
        proof {
            lemma_empty_splice(before, self.caret as int);
        }
        let len: usize = str_len(self.value.as_str());
        if self.caret >= len {
            return;
        }
        let next: usize = self.next_grapheme_boundary(self.caret);
        let value: String = replace_range(self.value.as_str(), self.caret, next, "");
        proof {
            reveal_strlit("");
            assert(""@ =~= Seq::<char>::empty());
            lemma_spliced(before, self.caret as int, next as int, Seq::empty());
        }
        self.value = value;
    }

    /// Moves the caret, with or without extending the selection.
    pub fn move_caret_to(&mut self, position: usize, extend_selection: bool)
        ensures
            !extend_selection || old(self).placed() ==> final(self).wf(),
            is_clamped(old(self).value@, position as int, final(self).caret as int),
            final(self).selection_anchor == if !extend_selection {
                None
            } else if old(self).selection_anchor is None {
                Some(old(self).caret)
            } else {
                old(self).selection_anchor
            },
            final(self).marked_range is None,
            final(self).value == old(self).value,
            final(self).secret == old(self).secret,
            final(self).is_selecting == old(self).is_selecting,
    {
        let position: usize = clamp_to_char_boundary(self.value.as_str(), position);
        if extend_selection {
            if self.selection_anchor.is_none() {
                self.selection_anchor = Some(self.caret);
            }
        } else {
            self.selection_anchor = None;
        }
        self.caret = position;
        self.marked_range = None;
    }

    pub fn move_to(&mut self, position: usize)
        ensures
            final(self).wf(),
            is_clamped(old(self).value@, position as int, final(self).caret as int),
            final(self).selection_anchor is None,
            final(self).marked_range is None,
            final(self).value == old(self).value,
            final(self).secret == old(self).secret,
            final(self).is_selecting == old(self).is_selecting,
    {
        self.move_caret_to(position, false);
    }

    pub fn select_to(&mut self, position: usize)
        ensures
            old(self).placed() ==> final(self).wf(),
            is_clamped(old(self).value@, position as int, final(self).caret as int),
            final(self).selection_anchor == if old(self).selection_anchor is None {
                Some(old(self).caret)
            } else {
                old(self).selection_anchor
            },
            final(self).marked_range is None,
            final(self).value == old(self).value,
            final(self).secret == old(self).secret,
            final(self).is_selecting == old(self).is_selecting,
    {
        self.move_caret_to(position, true);
    }

    /// Moves the caret to the start of the selection, or back over one cluster.
    pub fn move_left(&mut self, extend_selection: bool)
        ensures
            !extend_selection || old(self).placed() ==> final(self).wf(),
            match old(self).selection() {
                Some(ends) if !extend_selection => is_clamped(
                    old(self).value@,
                    ends.0 as int,
                    final(self).caret as int,
                ) && (old(self).placed() ==> final(self).caret == ends.0),
                _ => final(self).caret == start_before(grapheme_starts(old(self).value@), old(self).caret as int),
            },
            final(self).selection_anchor == if !extend_selection {
                None
            } else if old(self).selection_anchor is None {
                Some(old(self).caret)
            } else {
                old(self).selection_anchor
            },
            final(self).marked_range is None,
            final(self).value == old(self).value,
            final(self).secret == old(self).secret,
            final(self).is_selecting == old(self).is_selecting,
    {
        if !extend_selection {
            match self.selected_range() {
                Some(range) => {
                    self.move_caret_to(range.start, false);
                    return;
                },
                None => {},
            }
        }
        let previous: usize = self.previous_grapheme_boundary(self.caret);
        self.move_caret_to(previous, extend_selection);
    }

    /// Moves the caret to the end of the selection, or on over one cluster.
    pub fn move_right(&mut self, extend_selection: bool)
        ensures
            !extend_selection || old(self).placed() ==> final(self).wf(),
            match old(self).selection() {
                Some(ends) if !extend_selection => is_clamped(
                    old(self).value@,
                    ends.1 as int,
                    final(self).caret as int,
                ) && (old(self).placed() ==> final(self).caret == ends.1),
                _ => final(self).caret == start_after(
                    grapheme_starts(old(self).value@),
                    old(self).caret as int,
                    byte_len(old(self).value@) as int,
                ),
            },
            final(self).selection_anchor == if !extend_selection {
                None
            } else if old(self).selection_anchor is None {
                Some(old(self).caret)
            } else {
                old(self).selection_anchor
            },
            final(self).marked_range is None,
            final(self).value == old(self).value,
            final(self).secret == old(self).secret,
            final(self).is_selecting == old(self).is_selecting,
    {
        if !extend_selection {
            match self.selected_range() {
                Some(range) => {
                    self.move_caret_to(range.end, false);
                    return;
                },
                None => {},
            }
        }
        let next: usize = self.next_grapheme_boundary(self.caret);
        self.move_caret_to(next, extend_selection);
    }

    /// The start of the cluster before `offset`.
    pub fn previous_grapheme_boundary(&self, offset: usize) -> (r: usize)
        ensures
            r == start_before(grapheme_starts(self.value@), offset as int),
            r <= offset,
            on_boundary(self.value@, r as int),
    {
        let starts: Vec<usize> = grapheme_offsets(self.value.as_str());
        proof {
            lemma_ends_are_boundaries(self.value@);
        }
        previous_start(&starts, offset)
    }

    /// The start of the cluster behind `offset`, or the end of the text.
    pub fn next_grapheme_boundary(&self, offset: usize) -> (r: usize)
        ensures
            r == start_after(
                grapheme_starts(self.value@),
                offset as int,
                byte_len(self.value@) as int,
            ),
            r == byte_len(self.value@) || r > offset,
            on_boundary(self.value@, r as int),
    {
        let starts: Vec<usize> = grapheme_offsets(self.value.as_str());
        let len: usize = str_len(self.value.as_str());
        proof {
            lemma_ends_are_boundaries(self.value@);
        }
        next_start(&starts, offset, len)
    }

    pub fn offset_from_utf16(&self, offset: usize) -> (r: usize)
        ensures
            r == utf8_offset(self.value@, offset as int),
    {
        offset_from_utf16_in_text(self.value.as_str(), offset)
    }

    pub fn offset_to_utf16(&self, offset: usize) -> (r: usize)
        ensures
            r == utf16_offset(self.value@, offset as int),
    {
        offset_to_utf16_in_text(self.value.as_str(), offset)
    }

    pub fn range_from_utf16(&self, range_utf16: &Range<usize>) -> (r: Range<usize>)
        ensures
            r.start == utf8_offset(self.value@, range_utf16.start as int),
            r.end == utf8_offset(self.value@, range_utf16.end as int),
    {
        Range {
            start: self.offset_from_utf16(range_utf16.start),
            end: self.offset_from_utf16(range_utf16.end),
        }
    }

    pub fn range_to_utf16(&self, range: &Range<usize>) -> (r: Range<usize>)
        ensures
            r.start == utf16_offset(self.value@, range.start as int),
            r.end == utf16_offset(self.value@, range.end as int),
    {
        Range {
            start: self.offset_to_utf16(range.start),
            end: self.offset_to_utf16(range.end),
        }
    }

    /// What an input method replaces: the range that it names, else the marked text, else what
    /// typing replaces.
    pub open spec fn replaced_range(self, range_utf16: Option<Range<usize>>) -> (int, int) {
        match range_utf16 {
            Some(r) => (
                utf8_offset(self.value@, r.start as int),
                utf8_offset(self.value@, r.end as int),
            ),
            None => match self.marked_range {
                Some(r) => (r.start as int, r.end as int),
                None => self.target(),
            },
        }
    }

    /// Whether what an input method replaces lies between characters.
    pub open spec fn replaceable(self, range_utf16: Option<Range<usize>>) -> bool {
        match range_utf16 {
            Some(r) => r.start <= r.end,
            None => match self.marked_range {
                Some(r) => marks(r, self.value@),
                None => self.placed(),
            },
        }
    }

    /// Whether what an input method replaces lies between characters.
    pub fn is_replaceable(&self, range_utf16: &Option<Range<usize>>) -> (r: bool)
        ensures
            r == self.replaceable(*range_utf16),
    {
        match range_utf16 {
            Some(r) => r.start <= r.end,
            None => match &self.marked_range {
                Some(r) => r.start <= r.end && is_boundary(self.value.as_str(), r.start)
                    && is_boundary(self.value.as_str(), r.end),
                None => self.is_placed(),
            },
        }
    }

    fn range_to_replace(&self, range_utf16: &Option<Range<usize>>) -> (r: Range<usize>)
        requires
            self.replaceable(*range_utf16),
        ensures
            (r.start as int, r.end as int) == self.replaced_range(*range_utf16),
            marks(r, self.value@),
    {
        match range_utf16 {
            Some(r) => {
                proof {
                    lemma_utf8_offset_boundary(self.value@, r.start as int);
                    lemma_utf8_offset_boundary(self.value@, r.end as int);
                    lemma_utf8_offset_monotonic(self.value@, r.start as int, r.end as int);
                }
                self.range_from_utf16(r)
            },
            None => match &self.marked_range {
                Some(r) => Range { start: r.start, end: r.end },
                None => self.input_range(),
            },
        }
    }

    /// Takes over text from an input method.
    pub fn replace_text_in_utf16_range(&mut self, range_utf16: Option<Range<usize>>, text: &str)
        requires
            old(self).replaceable(range_utf16),
        ensures
            final(self).wf(),
            ({
                let (a, b) = old(self).replaced_range(range_utf16);
                let inserted = without_breaks(text@);
                &&& final(self).value@ == spliced(old(self).value@, a, b, inserted)
                &&& final(self).caret == a + byte_len(inserted)
            }),
            final(self).selection_anchor is None,
            final(self).marked_range is None,
            final(self).secret == old(self).secret,
            final(self).is_selecting == old(self).is_selecting,
    {
        let ghost before = self.value@;
        let range: Range<usize> = self.range_to_replace(&range_utf16);
        let inserted: String = strip_breaks(text);
        let value: String = replace_range(
            self.value.as_str(),
            range.start,
            range.end,
            inserted.as_str(),
        );
        let total: usize = str_len(value.as_str());
        let added: usize = str_len(inserted.as_str());
        proof {
            lemma_spliced(before, range.start as int, range.end as int, inserted@);
            lemma_split(value@, range.start + added);
        }
        self.value = value;
        self.caret = range.start + added;
        self.selection_anchor = None;
        self.marked_range = None;
    }

    /// Takes over text that an input method is still composing, and marks it. The selection
    /// is given within the new text; without one the caret goes behind it.
    pub fn replace_and_mark_text_in_utf16_range(
        &mut self,
        range_utf16: Option<Range<usize>>,
        text: &str,
        selected_range_utf16: Option<Range<usize>>,
    )
        requires
            old(self).replaceable(range_utf16),
        ensures
            final(self).wf(),
            ({
                let (a, b) = old(self).replaced_range(range_utf16);
                let inserted = without_breaks(text@);
                let (from, to) = match selected_range_utf16 {
                    Some(r) => (
                        utf8_offset(inserted, r.start as int),
                        utf8_offset(inserted, r.end as int),
                    ),
                    None => (byte_len(inserted) as int, byte_len(inserted) as int),
                };
                &&& final(self).value@ == spliced(old(self).value@, a, b, inserted)
                &&& final(self).caret == a + to
                &&& if from == to {
                    final(self).selection_anchor is None
                } else {
                    final(self).selection_anchor matches Some(x) && x == a + from
                }
                &&& if inserted.len() == 0 {
                    final(self).marked_range is None
                } else {
                    final(self).marked_range matches Some(m) && m.start == a && m.end == a
                        + byte_len(inserted)
                }
            }),
            final(self).secret == old(self).secret,
            final(self).is_selecting == old(self).is_selecting,
    {
        let ghost before = self.value@;
        let range: Range<usize> = self.range_to_replace(&range_utf16);
        let inserted: String = strip_breaks(text);
        let added: usize = str_len(inserted.as_str());
        let (from, to): (usize, usize) = match &selected_range_utf16 {
            Some(r) => (
                offset_from_utf16_in_text(inserted.as_str(), r.start),
                offset_from_utf16_in_text(inserted.as_str(), r.end),
            ),
            None => (added, added),
        };
        let value: String = replace_range(
            self.value.as_str(),
            range.start,
            range.end,
            inserted.as_str(),
        );
        let total: usize = str_len(value.as_str());
        proof {
            lemma_spliced(before, range.start as int, range.end as int, inserted@);
            lemma_split(value@, range.start + added);
            lemma_ends_are_boundaries(inserted@);
            match selected_range_utf16 {
                Some(r) => {
                    lemma_utf8_offset_boundary(inserted@, r.start as int);
                    lemma_utf8_offset_boundary(inserted@, r.end as int);
                },
                None => {},
            }
            lemma_spliced_inside(
                before,
                range.start as int,
                range.end as int,
                inserted@,
                from as int,
            );
            lemma_spliced_inside(before, range.start as int, range.end as int, inserted@, to as int);
        }
        self.value = value;
        if inserted.as_str().is_empty() {
            self.marked_range = None;
        } else {
            self.marked_range = Some(Range { start: range.start, end: range.start + added });
        }
        self.caret = range.start + to;
        if from == to {
            self.selection_anchor = None;
        } else {
            self.selection_anchor = Some(range.start + from);
        }
    }

    /// The text in a range, or a star for each of its characters if it is a secret.
    pub fn text_for_utf16_range(&self, range_utf16: &Range<usize>) -> (r: String)
        requires
            range_utf16.start <= range_utf16.end,
        ensures
            ({
                let text = self.value@.subrange(
                    split_index(self.value@, utf8_offset(self.value@, range_utf16.start as int)),
                    split_index(self.value@, utf8_offset(self.value@, range_utf16.end as int)),
                );
                r@ == if self.secret {
                    Seq::new(text.len(), |i: int| '*')
                } else {
                    text
                }
            }),
    {
        proof {
            lemma_utf8_offset_boundary(self.value@, range_utf16.start as int);
            lemma_utf8_offset_boundary(self.value@, range_utf16.end as int);
            lemma_utf8_offset_monotonic(
                self.value@,
                range_utf16.start as int,
                range_utf16.end as int,
            );
        }
        let range: Range<usize> = self.range_from_utf16(range_utf16);
        let text: String = slice(self.value.as_str(), range.start, range.end);
        if self.secret {
            let n: usize = to_chars(text.as_str()).len();
            repeat_char('*', n)
        } else {
            text
        }
    }

    /// The offset that a click `x` quarters of a pixel from the left edge means.
    pub fn byte_for_approx_x(&self, x: i64) -> (r: usize)
        requires
            self.value@.len() * 112 <= i64::MAX,
        ensures
            r == byte_len(self.value@.take(char_under(self.value@, x as int, 0, 0))),
    {
        let total: usize = str_len(self.value.as_str());
        let chars: Vec<char> = to_chars(self.value.as_str());
        let mut left: i64 = 0;
        let mut at: usize = 0;
        let mut k: usize = 0;
        proof {
            lemma_byte_len_bound(chars@.take(0));
        }
        while k < chars.len() && x >= left + approx_input_char_width(chars[k]) / 2
            invariant
                k <= chars@.len(),
                chars@.len() * 112 <= i64::MAX,
                0 <= left <= k * 112,
                total == byte_len(chars@),
                at == byte_len(chars@.take(k as int)),
                char_under(chars@, x as int, 0, 0) == char_under(
                    chars@,
                    x as int,
                    left as int,
                    k as int,
                ),
            decreases chars@.len() - k,
        {
            proof {
                let head = chars@.take(k as int);
                let more = chars@.take(k as int + 1);
                assert(more =~= head.push(chars@[k as int]));
                lemma_bytes_push(head, chars@[k as int]);
                assert(chars@ =~= more + chars@.skip(k as int + 1));
                lemma_bytes_concat(more, chars@.skip(k as int + 1));
            }
            left = left + approx_input_char_width(chars[k]);
            at = at + char_len(chars[k]);
            k = k + 1;
        }
        at
    }
}

proof fn lemma_empty_splice(s: Seq<char>, at: int)
    requires
        on_boundary(s, at),
    ensures
        spliced(s, at, at, Seq::empty()) == s,
{
    lemma_split(s, at);
    assert(spliced(s, at, at, Seq::empty()) =~= s);
}

// ---------------------------------------------------------------------------
// Laws
// ---------------------------------------------------------------------------
/// The place before a caret is the last start of a cluster that lies before it, and the start of the
/// text if there is none.
pub proof fn lemma_start_before(starts: Seq<usize>, offset: int)
    requires
        forall|i: int, j: int| 0 <= i < j < starts.len() ==> (#[trigger] starts[i]) < (
        #[trigger] starts[j]),
    ensures
        ({
            let r = start_before(starts, offset);
            &&& forall|i: int|
                0 <= i < starts.len() && (#[trigger] starts[i]) < offset ==> starts[i] <= r < offset
            &&& r == 0 || exists|i: int| 0 <= i < starts.len() && (#[trigger] starts[i]) == r
        }),
    decreases starts.len(),
{
    if starts.len() > 0 {
        if starts.last() < offset {
            assert(starts[starts.len() - 1] == start_before(starts, offset));
        } else {
            let head = starts.drop_last();
            assert forall|i: int, j: int| 0 <= i < j < head.len() implies (#[trigger] head[i]) < (
            #[trigger] head[j]) by {
                assert(starts[i] < starts[j]);
            }
            lemma_start_before(head, offset);
            let r = start_before(head, offset);
            assert forall|i: int|
                0 <= i < starts.len() && (#[trigger] starts[i]) < offset implies starts[i] <= r
                < offset by {
                assert(head[i] == starts[i]);
            }
            if r != 0 {
                let i = choose|i: int| 0 <= i < head.len() && (#[trigger] head[i]) == r;
                assert(starts[i] == r);
            }
        }
    }
}

/// The place behind a caret is the first start of a cluster that lies behind it, and the end of the
/// text if there is none.
pub proof fn lemma_start_after(starts: Seq<usize>, offset: int, len: int)
    requires
        forall|i: int, j: int| 0 <= i < j < starts.len() ==> (#[trigger] starts[i]) < (
        #[trigger] starts[j]),
    ensures
        ({
            let r = start_after(starts, offset, len);
            &&& forall|i: int|
                0 <= i < starts.len() && (#[trigger] starts[i]) > offset ==> offset < r <= starts[i]
            &&& r == len || exists|i: int| 0 <= i < starts.len() && (#[trigger] starts[i]) == r
            &&& (forall|i: int| 0 <= i < starts.len() ==> (#[trigger] starts[i]) <= offset) ==> r
                == len
        }),
    decreases starts.len(),
{
    if starts.len() > 0 {
        if starts[0] > offset {
        } else {
            let rest = starts.drop_first();
            assert forall|i: int, j: int| 0 <= i < j < rest.len() implies (#[trigger] rest[i]) < (
            #[trigger] rest[j]) by {
                assert(starts[i + 1] < starts[j + 1]);
            }
            lemma_start_after(rest, offset, len);
            let r = start_after(rest, offset, len);
            assert forall|i: int|
                0 <= i < starts.len() && (#[trigger] starts[i]) > offset implies offset < r
                <= starts[i] by {
                assert(rest[i - 1] == starts[i]);
            }
            if r != len {
                let i = choose|i: int| 0 <= i < rest.len() && (#[trigger] rest[i]) == r;
                assert(starts[i + 1] == r);
            }
            if forall|i: int| 0 <= i < starts.len() ==> (#[trigger] starts[i]) <= offset {
                assert forall|i: int| 0 <= i < rest.len() implies (#[trigger] rest[i]) <= offset by {
                    assert(starts[i + 1] <= offset);
                }
            }
        }
    }
}

/// A place between two characters is as many bytes from the start as the text before it has, and as
/// many units: the two ways to count it are turned into each other.
pub proof fn lemma_offsets_count_the_text_before(before: Seq<char>, behind: Seq<char>)
    ensures
        utf8_offset(before + behind, unit_len(before) as int) == byte_len(before),
        utf16_offset(before + behind, byte_len(before) as int) == unit_len(before),
{
    let s = before + behind;
    let k = before.len() as int;
    assert(s.take(k) =~= before);
    lemma_chars_to_units(s, unit_len(before) as int, 0);
    lemma_chars_to_bytes(s, byte_len(before) as int, 0);
    let a = chars_to_units(s, unit_len(before) as int, 0);
    if a < k {
        lemma_unit_len_monotonic(s, a, k);
    }
    if a > k {
        assert(unit_len(s.take(k)) < unit_len(before));
    }
    let b = chars_to_bytes(s, byte_len(before) as int, 0);
    if b < k {
        crate::text::lemma_prefix_len_monotonic(s, b, k);
    }
    if b > k {
        assert(byte_len(s.take(k)) < byte_len(before));
    }
}

/// Without its line breaks a text keeps every other character in its place in the order, and has no
/// line break.
pub proof fn lemma_without_breaks(before: Seq<char>, c: char, behind: Seq<char>)
    ensures
        without_breaks(before + seq![c] + behind) == if c == '\r' || c == '\n' {
            without_breaks(before) + without_breaks(behind)
        } else {
            without_breaks(before) + seq![c] + without_breaks(behind)
        },
        without_breaks(Seq::empty()) == Seq::<char>::empty(),
{
    let keep = |c: char| is_no_break(c);
    reveal(Seq::filter);
    let mid = before + seq![c];
    assert(mid =~= before.push(c));
    assert(mid.drop_last() =~= before);
    Seq::filter_distributes_over_add(mid, behind, keep);
    assert(mid.filter(keep) == if keep(c) {
        before.filter(keep).push(c)
    } else {
        before.filter(keep)
    });
    assert(before.filter(keep).push(c) =~= before.filter(keep) + seq![c]);
}

/// A field of one line takes a text without its line breaks, and one of several takes it as it is.
pub proof fn lemma_accepted_text(text: Seq<char>)
    ensures
        accepted(text, true) == text,
        accepted(text, false) == without_breaks(text),
        forall|i: int|
            0 <= i < accepted(text, false).len() ==> (#[trigger] accepted(text, false)[i]) != '\r'
                && accepted(text, false)[i] != '\n',
{
    let keep = |c: char| is_no_break(c);
    lemma_kept(text, keep);
    assert forall|i: int| 0 <= i < accepted(text, false).len() implies (#[trigger] accepted(
        text,
        false,
    )[i]) != '\r' && accepted(text, false)[i] != '\n' by {
        assert(keep(text.filter(keep)[i]));
    }
}

proof fn lemma_kept(s: Seq<char>, keep: spec_fn(char) -> bool)
    ensures
        forall|i: int| 0 <= i < s.filter(keep).len() ==> keep(#[trigger] s.filter(keep)[i]),
    decreases s.len(),
{
    reveal(Seq::filter);
    if s.len() > 0 {
        lemma_kept(s.drop_last(), keep);
        let head = s.drop_last().filter(keep);
        assert forall|i: int| 0 <= i < s.filter(keep).len() implies keep(
            #[trigger] s.filter(keep)[i],
        ) by {
            if i < head.len() {
                assert(keep(head[i]));
            }
        }
    }
}

/// What is put in the place of a part of a text stands there, with all that was before and behind.
pub proof fn lemma_spliced_text(
    before: Seq<char>,
    taken: Seq<char>,
    behind: Seq<char>,
    with: Seq<char>,
)
    ensures
        spliced(
            before + taken + behind,
            byte_len(before) as int,
            byte_len(before + taken) as int,
            with,
        ) == before + with + behind,
{
    let s = before + taken + behind;
    let a = before.len() as int;
    let b = (before.len() + taken.len()) as int;
    assert(s.take(a) =~= before);
    assert(s.take(b) =~= before + taken);
    assert(byte_len(s.take(a)) == byte_len(before));
    assert(byte_len(s.take(b)) == byte_len(before + taken));
    let i = split_index(s, byte_len(before) as int);
    let j = split_index(s, byte_len(before + taken) as int);
    crate::text::lemma_prefix_len_injective(s, i, a);
    crate::text::lemma_prefix_len_injective(s, j, b);
    assert(s.skip(b) =~= behind);
}

/// The selection reaches from the one end to the other, whichever way it was made, and there is none
/// if the two are in one place. What is written replaces it, or goes where the caret is.
pub proof fn lemma_selection(state: TextEditState)
    ensures
        match state.selection_anchor {
            Some(anchor) if anchor != state.caret => {
                &&& state.selection() matches Some((from, to))
                &&& from < to
                &&& (from == anchor && to == state.caret) || (from == state.caret && to == anchor)
                &&& state.target() == (from, to)
            },
            _ => state.selection() is None && state.target() == (
                state.caret as int,
                state.caret as int,
            ),
        },
{
}

/// What an input method replaces is the range that it names, else the text that it marked, else the
/// selection.
pub proof fn lemma_replaced_range(state: TextEditState, range: Option<Range<usize>>)
    ensures
        match (range, state.marked_range) {
            (Some(r), _) => state.replaced_range(range) == (
                utf8_offset(state.value@, r.start as int),
                utf8_offset(state.value@, r.end as int),
            ),
            (None, Some(m)) => state.replaced_range(range) == (m.start as int, m.end as int),
            (None, None) => state.replaced_range(range) == state.target(),
        },
{
}

/// Behind dots every character takes one byte, so the place that is shown is that of as many
/// characters; a text that is shown as it is has its places where it shows them.
pub proof fn lemma_shown_places(state: TextEditState, before: Seq<char>, behind: Seq<char>, at: int)
    requires
        state.value@ == before + behind,
    ensures
        state.secret ==> (state.is_shown_at(at, before.len() as int) ==> at == byte_len(before)),
        !state.secret ==> (state.is_shown_at(at, byte_len(before) as int) ==> at == byte_len(
            before,
        )),
{
    assert(state.value@.take(before.len() as int) =~= before);
    if before.len() >= state.value@.len() {
        assert(behind.len() == 0);
        assert(state.value@ =~= before);
    }
    lemma_prefix_boundary(before, behind);
}

/// The width of a text as it is guessed: that of its characters together.
pub open spec fn guessed_width(s: Seq<char>) -> nat
    decreases s.len(),
{
    if s.len() == 0 {
        0
    } else {
        guessed_width(s.drop_last()) + approx_width(s.last())
    }
}

/// A click lands before the character whose left half it is in, or whose right half the one before
/// it has: it is not left of the middle of any character before, and left of the middle of the next.
pub proof fn lemma_char_under(s: Seq<char>, x: int)
    ensures
        ({
            let k = char_under(s, x, 0, 0);
            &&& 0 <= k <= s.len()
            &&& k < s.len() ==> x < guessed_width(s.take(k)) + approx_width(s[k]) / 2
            &&& forall|i: int|
                #![trigger s[i]]
                0 <= i < k ==> x >= guessed_width(s.take(i)) + approx_width(s[i]) / 2
        }),
{
    assert(s.take(0) =~= Seq::<char>::empty());
    lemma_char_under_from(s, x, 0);
}

proof fn lemma_char_under_from(s: Seq<char>, x: int, from: int)
    requires
        0 <= from <= s.len(),
    ensures
        ({
            let k = char_under(s, x, guessed_width(s.take(from)) as int, from);
            &&& from <= k <= s.len()
            &&& k < s.len() ==> x < guessed_width(s.take(k)) + approx_width(s[k]) / 2
            &&& forall|i: int|
                #![trigger s[i]]
                from <= i < k ==> x >= guessed_width(s.take(i)) + approx_width(s[i]) / 2
        }),
    decreases s.len() - from,
{
    if from < s.len() && x >= guessed_width(s.take(from)) + approx_width(s[from]) / 2 {
        assert(s.take(from + 1).drop_last() =~= s.take(from));
        lemma_char_under_from(s, x, from + 1);
    }
}

/// A wide character is as wide as two plain ones, and a tab as four; the others are a little wider
/// than plain ones. Plain ones are not wide, and the ideographs of the main block are.
pub proof fn lemma_guessed_widths(c: char)
    ensures
        c as u32 <= 0x7f && c != '\t' ==> approx_width(c) == 28 && !is_wide(c),
        c == '\t' ==> approx_width(c) == 4 * 28,
        0x4e00 <= c as u32 <= 0x9fff ==> is_wide(c),
        is_wide(c) ==> approx_width(c) == 2 * 28,
        c as u32 > 0x7f && !is_wide(c) ==> 28 < approx_width(c) < 2 * 28,
{
}

/// A place that lies inside a character is moved back to its start, and one that does not stays.
pub proof fn lemma_clamped_places(s: Seq<char>, position: int, at: int)
    requires
        is_clamped(s, position, at),
    ensures
        on_boundary(s, at),
        at <= position,
        on_boundary(s, position) ==> at == position,
{
}

/// What an input method may replace: a range that does not run backwards, else the text that it
/// marked, else what is selected, each between characters.
pub proof fn lemma_replaceable(state: TextEditState, range: Option<Range<usize>>)
    ensures
        state.replaceable(range) <==> match (range, state.marked_range) {
            (Some(r), _) => r.start <= r.end,
            (None, Some(m)) => m.start <= m.end && on_boundary(state.value@, m.start as int)
                && on_boundary(state.value@, m.end as int),
            (None, None) => on_boundary(state.value@, state.target().0) && on_boundary(
                state.value@,
                state.target().1,
            ),
        },
{
}

} // verus!
