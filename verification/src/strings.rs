//! Searching, comparing and joining strings.

use vstd::prelude::*;
use vstd::string::StringExecFns;

use crate::text::{char_is_whitespace, from_chars, is_whitespace, to_chars};

verus! {

// ---------------------------------------------------------------------------
// Joining
// ---------------------------------------------------------------------------
/// The parts put one after the other.
pub open spec fn flat(parts: Seq<Seq<char>>) -> Seq<char>
    decreases parts.len(),
{
    if parts.len() == 0 {
        Seq::empty()
    } else {
        flat(parts.drop_last()) + parts.last()
    }
}

/// The parts with `sep` between each two of them.
pub open spec fn joined(parts: Seq<Seq<char>>, sep: Seq<char>) -> Seq<char>
    decreases parts.len(),
{
    if parts.len() == 0 {
        Seq::empty()
    } else if parts.len() == 1 {
        parts[0]
    } else {
        joined(parts.drop_last(), sep) + sep + parts.last()
    }
}

/// What each of the strings holds.
pub open spec fn views(parts: Seq<String>) -> Seq<Seq<char>> {
    parts.map_values(|s: String| s@)
}

/// What each of the string slices holds.
pub open spec fn str_views(parts: Seq<&str>) -> Seq<Seq<char>> {
    parts.map_values(|s: &str| s@)
}

pub open spec fn opt_view(s: Option<String>) -> Option<Seq<char>> {
    match s {
        Some(s) => Some(s@),
        None => None,
    }
}

pub proof fn lemma_flat_push(parts: Seq<Seq<char>>, part: Seq<char>)
    ensures
        flat(parts.push(part)) == flat(parts) + part,
{
    assert(parts.push(part).drop_last() =~= parts);
}

pub proof fn lemma_flat_one(part: Seq<char>)
    ensures
        flat(seq![part]) == part,
{
    lemma_flat_push(Seq::empty(), part);
    assert(Seq::<Seq<char>>::empty().push(part) =~= seq![part]);
    assert(Seq::<char>::empty() + part =~= part);
}

pub proof fn lemma_flat_concat(a: Seq<Seq<char>>, b: Seq<Seq<char>>)
    ensures
        flat(a + b) == flat(a) + flat(b),
    decreases b.len(),
{
    if b.len() == 0 {
        assert(a + b =~= a);
        assert(flat(a) + flat(b) =~= flat(a));
    } else {
        assert((a + b).drop_last() =~= a + b.drop_last());
        lemma_flat_concat(a, b.drop_last());
        assert(flat(a + b) =~= flat(a) + flat(b));
    }
}

pub fn cat2(a: &str, b: &str) -> (r: String)
    ensures
        r@ == a@ + b@,
{
    let mut r = String::from_str(a);
    r.append(b);
    r
}

pub fn cat3(a: &str, b: &str, c: &str) -> (r: String)
    ensures
        r@ == a@ + b@ + c@,
{
    let mut r = String::from_str(a);
    r.append(b);
    r.append(c);
    r
}

pub fn cat4(a: &str, b: &str, c: &str, d: &str) -> (r: String)
    ensures
        r@ == a@ + b@ + c@ + d@,
{
    let mut r = cat3(a, b, c);
    r.append(d);
    r
}

pub fn cat5(a: &str, b: &str, c: &str, d: &str, e: &str) -> (r: String)
    ensures
        r@ == a@ + b@ + c@ + d@ + e@,
{
    let mut r = cat4(a, b, c, d);
    r.append(e);
    r
}

/// The slices `parts[from..to]` put one after the other.
pub fn concat(parts: &Vec<&str>, from: usize, to: usize) -> (r: String)
    requires
        from <= to <= parts@.len(),
    ensures
        r@ == flat(str_views(parts@).subrange(from as int, to as int)),
{
    let mut r = String::new();
    let mut i: usize = from;
    assert(r@ =~= flat(str_views(parts@).subrange(from as int, from as int)));
    while i < to
        invariant
            from <= i <= to <= parts@.len(),
            r@ == flat(str_views(parts@).subrange(from as int, i as int)),
        decreases to - i,
    {
        proof {
            let done = str_views(parts@).subrange(from as int, i as int);
            assert(str_views(parts@).subrange(from as int, i as int + 1) =~= done.push(
                parts@[i as int]@,
            ));
            lemma_flat_push(done, parts@[i as int]@);
        }
        r.append(parts[i]);
        i = i + 1;
    }
    r
}

/// The first `count` strings with `sep` between each two of them.
pub fn join(parts: &Vec<String>, count: usize, sep: &str) -> (r: String)
    requires
        count <= parts@.len(),
    ensures
        r@ == joined(views(parts@).take(count as int), sep@),
{
    let mut r = String::new();
    let mut i: usize = 0;
    assert(views(parts@).take(0) =~= Seq::<Seq<char>>::empty());
    assert(r@ =~= Seq::<char>::empty());
    while i < count
        invariant
            i <= count <= parts@.len(),
            r@ == joined(views(parts@).take(i as int), sep@),
        decreases count - i,
    {
        proof {
            let done = views(parts@).take(i as int);
            let more = views(parts@).take(i as int + 1);
            assert(more =~= done.push(parts@[i as int]@));
            assert(more.drop_last() =~= done);
            assert(more.last() == parts@[i as int]@);
            if i == 0 {
                assert(joined(done, sep@) =~= Seq::<char>::empty());
                assert(Seq::<char>::empty() + parts@[0]@ =~= parts@[0]@);
            }
        }
        if i > 0 {
            r.append(sep);
        }
        r.append(parts[i].as_str());
        i = i + 1;
    }
    r
}

/// `count` copies of `c`.
pub fn repeat_char(c: char, count: usize) -> (r: String)
    ensures
        r@ == Seq::new(count as nat, |i: int| c),
{
    let mut r = String::new();
    let mut i: usize = 0;
    assert(r@ =~= Seq::new(0, |i: int| c));
    while i < count
        invariant
            i <= count,
            r@ == Seq::new(i as nat, |i: int| c),
        decreases count - i,
    {
        assert(Seq::new(i as nat, |i: int| c).push(c) =~= Seq::new(i as nat + 1, |i: int| c));
        r.push(c);
        i = i + 1;
    }
    r
}

// ---------------------------------------------------------------------------
// Comparing
// ---------------------------------------------------------------------------
pub fn str_eq(a: &str, b: &str) -> (r: bool)
    ensures
        r == (a@ == b@),
{
    let x: String = String::from_str(a);
    let y: String = String::from_str(b);
    x == y
}

pub fn opt_str_eq(a: &Option<String>, b: &str) -> (r: bool)
    ensures
        r == (opt_view(*a) == Some(b@)),
{
    match a {
        Some(a) => str_eq(a.as_str(), b),
        None => false,
    }
}

/// Whether `a` comes before `b` in the order of their characters.
pub open spec fn text_less(a: Seq<char>, b: Seq<char>) -> bool
    decreases a.len(),
{
    if b.len() == 0 {
        false
    } else if a.len() == 0 {
        true
    } else if a[0] != b[0] {
        (a[0] as int) < (b[0] as int)
    } else {
        text_less(a.drop_first(), b.drop_first())
    }
}

/// The order of texts is total: of two different texts exactly one comes first.
pub proof fn lemma_text_less_total(a: Seq<char>, b: Seq<char>)
    ensures
        a == b ==> !text_less(a, b) && !text_less(b, a),
        a != b ==> text_less(a, b) != text_less(b, a),
    decreases a.len(),
{
    if a.len() == 0 || b.len() == 0 {
        if a.len() == 0 && b.len() == 0 {
            assert(a =~= b);
        }
    } else if a[0] == b[0] {
        lemma_text_less_total(a.drop_first(), b.drop_first());
        if a.drop_first() == b.drop_first() {
            assert(a =~= seq![a[0]] + a.drop_first());
            assert(b =~= seq![b[0]] + b.drop_first());
        }
    }
}

pub proof fn lemma_text_less_transitive(a: Seq<char>, b: Seq<char>, c: Seq<char>)
    requires
        text_less(a, b),
        text_less(b, c),
    ensures
        text_less(a, c),
    decreases a.len(),
{
    if a.len() > 0 && a[0] == b[0] && b[0] == c[0] {
        lemma_text_less_transitive(a.drop_first(), b.drop_first(), c.drop_first());
    }
}

pub fn str_less(a: &str, b: &str) -> (r: bool)
    ensures
        r == text_less(a@, b@),
{
    let x: Vec<char> = to_chars(a);
    let y: Vec<char> = to_chars(b);
    let mut i: usize = 0;
    assert(x@.skip(0) =~= x@);
    assert(y@.skip(0) =~= y@);
    while i < x.len() && i < y.len() && x[i] == y[i]
        invariant
            i <= x@.len(),
            i <= y@.len(),
            text_less(x@, y@) == text_less(x@.skip(i as int), y@.skip(i as int)),
        decreases x@.len() - i,
    {
        assert(x@.skip(i as int).drop_first() =~= x@.skip(i as int + 1));
        assert(y@.skip(i as int).drop_first() =~= y@.skip(i as int + 1));
        i = i + 1;
    }
    if i >= y.len() {
        false
    } else if i >= x.len() {
        true
    } else {
        x[i] < y[i]
    }
}

// ---------------------------------------------------------------------------
// Splitting
// ---------------------------------------------------------------------------
/// The parts of `s` between the `sep`s in it, from position `from` on.
pub open spec fn split_from(s: Seq<char>, sep: char, from: int) -> Seq<Seq<char>>
    decreases s.len() - from,
{
    let at = position_from(s, sep, from);
    if from < 0 || from > s.len() || at >= s.len() || at < from {
        seq![s.skip(from)]
    } else {
        seq![s.subrange(from, at)] + split_from(s, sep, at + 1)
    }
}

pub fn split_text(t: &str, sep: char) -> (r: Vec<String>)
    ensures
        views(r@) == split_from(t@, sep, 0),
{
    let chars: Vec<char> = to_chars(t);
    let mut r: Vec<String> = Vec::new();
    let mut from: usize = 0;
    assert(split_from(t@, sep, 0) =~= views(r@) + split_from(t@, sep, 0));
    loop
        invariant
            from <= chars@.len(),
            chars@ == t@,
            split_from(t@, sep, 0) == views(r@) + split_from(t@, sep, from as int),
        decreases chars@.len() - from,
    {
        let at: usize = find_from(&chars, sep, from);
        let ghost before = r@;
        if at >= chars.len() {
            let part = from_chars(&chars, from, chars.len());
            assert(part@ =~= t@.skip(from as int));
            r.push(part);
            assert(views(r@) =~= views(before).push(part@));
            assert(views(before) + split_from(t@, sep, from as int) =~= views(r@));
            return r;
        }
        let part = from_chars(&chars, from, at);
        r.push(part);
        assert(views(r@) =~= views(before).push(part@));
        assert(views(before) + split_from(t@, sep, from as int) =~= views(r@) + split_from(
            t@,
            sep,
            at + 1,
        ));
        from = at + 1;
    }
}

// ---------------------------------------------------------------------------
// Searching
// ---------------------------------------------------------------------------
pub fn starts_with(s: &str, prefix: &str) -> (r: bool)
    ensures
        r == prefix@.is_prefix_of(s@),
{
    let x: Vec<char> = to_chars(s);
    let y: Vec<char> = to_chars(prefix);
    if y.len() > x.len() {
        return false;
    }
    let mut i: usize = 0;
    while i < y.len()
        invariant
            i <= y@.len() <= x@.len(),
            forall|j: int| 0 <= j < i ==> x@[j] == y@[j],
            x@ == s@,
            y@ == prefix@,
        decreases y@.len() - i,
    {
        if x[i] != y[i] {
            assert(s@.subrange(0, prefix@.len() as int)[i as int] != prefix@[i as int]);
            return false;
        }
        i = i + 1;
    }
    assert(s@.subrange(0, prefix@.len() as int) =~= prefix@);
    true
}

pub fn ends_with(s: &str, suffix: &str) -> (r: bool)
    ensures
        r == suffix@.is_suffix_of(s@),
{
    let x: Vec<char> = to_chars(s);
    let y: Vec<char> = to_chars(suffix);
    if y.len() > x.len() {
        return false;
    }
    let off: usize = x.len() - y.len();
    let mut i: usize = 0;
    while i < y.len()
        invariant
            i <= y@.len() <= x@.len(),
            off == x@.len() - y@.len(),
            x@.len() <= usize::MAX,
            forall|j: int| 0 <= j < i ==> x@[off + j] == y@[j],
            x@ == s@,
            y@ == suffix@,
        decreases y@.len() - i,
    {
        if x[off + i] != y[i] {
            assert(s@.subrange(off as int, s@.len() as int)[i as int] != suffix@[i as int]);
            return false;
        }
        i = i + 1;
    }
    assert(s@.subrange(off as int, s@.len() as int) =~= suffix@);
    true
}

pub fn contains_char(s: &str, c: char) -> (r: bool)
    ensures
        r == s@.contains(c),
{
    let x: Vec<char> = to_chars(s);
    let mut i: usize = 0;
    while i < x.len()
        invariant
            i <= x@.len(),
            x@ == s@,
            forall|j: int| 0 <= j < i ==> x@[j] != c,
        decreases x@.len() - i,
    {
        if x[i] == c {
            return true;
        }
        i = i + 1;
    }
    false
}

/// Whether `needle` occurs in `s` as a run of characters.
pub open spec fn contains_text(s: Seq<char>, needle: Seq<char>) -> bool {
    exists|i: int|
        0 <= i <= s.len() - needle.len() && #[trigger] s.subrange(i, i + needle.len()) == needle
}

pub fn contains_str(s: &str, needle: &str) -> (r: bool)
    ensures
        r == contains_text(s@, needle@),
{
    let x: Vec<char> = to_chars(s);
    let y: Vec<char> = to_chars(needle);
    if y.len() > x.len() {
        return false;
    }
    let last: usize = x.len() - y.len();
    let mut i: usize = 0;
    while i <= last
        invariant
            i <= last + 1,
            x@.len() <= usize::MAX,
            last == x@.len() - y@.len(),
            x@ == s@,
            y@ == needle@,
            forall|k: int| 0 <= k < i ==> #[trigger] s@.subrange(k, k + needle@.len()) != needle@,
        decreases last + 1 - i,
    {
        let mut j: usize = 0;
        while j < y.len() && x[i + j] == y[j]
            invariant
                i <= last,
                x@.len() <= usize::MAX,
                last == x@.len() - y@.len(),
                j <= y@.len(),
                forall|k: int| 0 <= k < j ==> x@[i + k] == y@[k],
            decreases y@.len() - j,
        {
            j = j + 1;
        }
        if j == y.len() {
            assert(s@.subrange(i as int, i + needle@.len()) =~= needle@);
            return true;
        }
        assert(s@.subrange(i as int, i + needle@.len())[j as int] != needle@[j as int]);
        if i == last {
            return false;
        }
        i = i + 1;
    }
    false
}

/// The first position from `from` on at which `c` stands, or the length.
pub open spec fn position_from(s: Seq<char>, c: char, from: int) -> int
    decreases s.len() - from,
{
    if from < 0 || from >= s.len() {
        s.len() as int
    } else if s[from] == c {
        from
    } else {
        position_from(s, c, from + 1)
    }
}

pub proof fn lemma_position_from(s: Seq<char>, c: char, from: int)
    requires
        0 <= from <= s.len(),
    ensures
        from <= position_from(s, c, from) <= s.len(),
        position_from(s, c, from) < s.len() ==> s[position_from(s, c, from)] == c,
        forall|i: int| from <= i < position_from(s, c, from) ==> s[i] != c,
    decreases s.len() - from,
{
    if from < s.len() && s[from] != c {
        lemma_position_from(s, c, from + 1);
    }
}

pub fn find_from(s: &Vec<char>, c: char, from: usize) -> (r: usize)
    requires
        from <= s@.len(),
    ensures
        r == position_from(s@, c, from as int),
        from <= r <= s@.len(),
{
    let mut i: usize = from;
    while i < s.len() && s[i] != c
        invariant
            from <= i <= s@.len(),
            position_from(s@, c, from as int) == position_from(s@, c, i as int),
        decreases s@.len() - i,
    {
        i = i + 1;
    }
    i
}

// ---------------------------------------------------------------------------
// Trimming
// ---------------------------------------------------------------------------
/// `s` without the whitespace it starts with.
pub open spec fn trim_start(s: Seq<char>) -> Seq<char>
    decreases s.len(),
{
    if s.len() > 0 && is_whitespace(s[0]) {
        trim_start(s.drop_first())
    } else {
        s
    }
}

/// `s` without the whitespace it ends with.
pub open spec fn trim_end(s: Seq<char>) -> Seq<char>
    decreases s.len(),
{
    if s.len() > 0 && is_whitespace(s.last()) {
        trim_end(s.drop_last())
    } else {
        s
    }
}

/// `s` without the whitespace at its ends.
pub open spec fn trimmed(s: Seq<char>) -> Seq<char> {
    trim_end(trim_start(s))
}

pub fn trim(s: &str) -> (r: String)
    ensures
        r@ == trimmed(s@),
{
    let x: Vec<char> = to_chars(s);
    let mut from: usize = 0;
    assert(x@.skip(0) =~= x@);
    while from < x.len() && char_is_whitespace(x[from])
        invariant
            from <= x@.len(),
            trim_start(x@) == trim_start(x@.skip(from as int)),
        decreases x@.len() - from,
    {
        assert(x@.skip(from as int).drop_first() =~= x@.skip(from as int + 1));
        from = from + 1;
    }
    let mut to: usize = x.len();
    assert(x@.subrange(from as int, to as int) =~= x@.skip(from as int));
    while to > from && char_is_whitespace(x[to - 1])
        invariant
            from <= to <= x@.len(),
            trim_end(x@.skip(from as int)) == trim_end(x@.subrange(from as int, to as int)),
        decreases to,
    {
        assert(x@.subrange(from as int, to as int).drop_last() =~= x@.subrange(
            from as int,
            to as int - 1,
        ));
        to = to - 1;
    }
    from_chars(&x, from, to)
}

/// Whether nothing but whitespace is in `s`.
pub fn is_blank(s: &str) -> (r: bool)
    ensures
        r == (trimmed(s@).len() == 0),
{
    trim(s).as_str().is_empty()
}

/// `s` without the `c`s it ends with.
pub open spec fn trim_end_of(s: Seq<char>, c: char) -> Seq<char>
    decreases s.len(),
{
    if s.len() > 0 && s.last() == c {
        trim_end_of(s.drop_last(), c)
    } else {
        s
    }
}

/// Length of `s[..to]` without the `c`s it ends with.
pub fn trim_end_at(s: &Vec<char>, from: usize, to: usize, c: char) -> (r: usize)
    requires
        from <= to <= s@.len(),
    ensures
        from <= r <= to,
        s@.subrange(from as int, r as int) == trim_end_of(
            s@.subrange(from as int, to as int),
            c,
        ),
{
    let mut end: usize = to;
    while end > from && s[end - 1] == c
        invariant
            from <= end <= to <= s@.len(),
            trim_end_of(s@.subrange(from as int, to as int), c) == trim_end_of(
                s@.subrange(from as int, end as int),
                c,
            ),
        decreases end,
    {
        assert(s@.subrange(from as int, end as int).drop_last() =~= s@.subrange(
            from as int,
            end as int - 1,
        ));
        end = end - 1;
    }
    end
}

// ---------------------------------------------------------------------------
// Letter case
// ---------------------------------------------------------------------------
pub open spec fn ascii_lower(c: char) -> char {
    if 'A' <= c && c <= 'Z' {
        (c as u32 + 32) as char
    } else {
        c
    }
}

/// `s` with the letters `A` to `Z` made small.
pub open spec fn ascii_lowered(s: Seq<char>) -> Seq<char> {
    s.map_values(|c: char| ascii_lower(c))
}

fn lower_char(c: char) -> (r: char)
    ensures
        r == ascii_lower(c),
{
    if 'A' <= c && c <= 'Z' {
        let b: u8 = c as u8 + 32;
        b as char
    } else {
        c
    }
}

pub fn to_ascii_lowercase(s: &str) -> (r: String)
    ensures
        r@ == ascii_lowered(s@),
{
    let x: Vec<char> = to_chars(s);
    let mut r = String::new();
    let mut i: usize = 0;
    assert(r@ =~= ascii_lowered(x@.take(0)));
    while i < x.len()
        invariant
            i <= x@.len(),
            r@ == ascii_lowered(x@.take(i as int)),
        decreases x@.len() - i,
    {
        assert(ascii_lowered(x@.take(i as int + 1)) =~= ascii_lowered(x@.take(i as int)).push(
            ascii_lower(x@[i as int]),
        ));
        r.push(lower_char(x[i]));
        i = i + 1;
    }
    assert(x@.take(i as int) =~= x@);
    r
}

/// What `str::to_lowercase` makes of a text.
pub uninterp spec fn lowercase(s: Seq<char>) -> Seq<char>;

/// Calls `str::to_lowercase`, which maps every character to its Unicode lower case. On a text
/// of ASCII characters alone it makes the letters `A` to `Z` small.
#[verifier::external_body]
pub(crate) fn to_lowercase(s: &str) -> (r: String)
    ensures
        r@ == lowercase(s@),
        (forall|i: int| 0 <= i < s@.len() ==> (#[trigger] s@[i]) as u32 <= 0x7f) ==> r@
            == ascii_lowered(s@),
{
    s.to_lowercase()
}

// ---------------------------------------------------------------------------
// Numbers
// ---------------------------------------------------------------------------
pub open spec fn digit(n: nat) -> char {
    (48 + n % 10) as char
}

/// `n` in decimal digits.
pub open spec fn decimal(n: nat) -> Seq<char>
    decreases n,
{
    if n < 10 {
        seq![digit(n)]
    } else {
        decimal(n / 10).push(digit(n))
    }
}

fn digit_char(d: u64) -> (c: char)
    requires
        d < 10,
    ensures
        c == digit(d as nat),
{
    match d {
        0 => '0',
        1 => '1',
        2 => '2',
        3 => '3',
        4 => '4',
        5 => '5',
        6 => '6',
        7 => '7',
        8 => '8',
        _ => '9',
    }
}

pub fn u64_to_string(n: u64) -> (r: String)
    ensures
        r@ == decimal(n as nat),
    decreases n,
{
    if n < 10 {
        let mut r = String::new();
        r.push(digit_char(n));
        assert(r@ =~= seq![digit(n as nat)]);
        r
    } else {
        let mut r = u64_to_string(n / 10);
        r.push(digit_char(n % 10));
        r
    }
}

pub fn usize_to_string(n: usize) -> (r: String)
    ensures
        r@ == decimal(n as nat),
{
    u64_to_string(n as u64)
}

/// Copies a list of strings.
pub fn clone_strings(v: &Vec<String>) -> (r: Vec<String>)
    ensures
        views(r@) == views(v@),
{
    let mut r: Vec<String> = Vec::new();
    let mut i: usize = 0;
    while i < v.len()
        invariant
            i <= v@.len(),
            views(r@) == views(v@).take(i as int),
        decreases v@.len() - i,
    {
        let ghost before = r@;
        r.push(v[i].clone());
        assert(views(r@) =~= views(before).push(v@[i as int]@));
        assert(views(v@).take(i as int + 1) =~= views(v@).take(i as int).push(v@[i as int]@));
        i = i + 1;
    }
    assert(views(v@).take(i as int) =~= views(v@));
    r
}

pub fn clone_opt(s: &Option<String>) -> (r: Option<String>)
    ensures
        r == *s,
        opt_view(r) == opt_view(*s),
{
    match s {
        Some(s) => Some(s.clone()),
        None => None,
    }
}

/// Whether one of the strings is `s`.
pub fn contains_string(v: &Vec<String>, s: &str) -> (r: bool)
    ensures
        r == views(v@).contains(s@),
{
    let mut i: usize = 0;
    while i < v.len()
        invariant
            i <= v@.len(),
            forall|j: int| 0 <= j < i ==> views(v@)[j] != s@,
        decreases v@.len() - i,
    {
        if str_eq(v[i].as_str(), s) {
            assert(views(v@)[i as int] == s@);
            return true;
        }
        i = i + 1;
    }
    false
}

// ---------------------------------------------------------------------------
// Laws
// ---------------------------------------------------------------------------
/// Texts are ordered by the first character in which they differ, and a text comes before what it
/// is the start of.
pub proof fn lemma_text_less_by_first_difference(
    same: Seq<char>,
    a: char,
    b: char,
    rest: Seq<char>,
    other: Seq<char>,
)
    ensures
        (a as int) < (b as int) ==> text_less(same.push(a) + rest, same.push(b) + other),
        text_less(same, same.push(a) + rest),
    decreases same.len(),
{
    let x = same.push(a) + rest;
    let y = same.push(b) + other;
    if same.len() > 0 {
        let tail = same.drop_first();
        lemma_text_less_by_first_difference(tail, a, b, rest, other);
        assert(x.drop_first() =~= tail.push(a) + rest);
        assert(y.drop_first() =~= tail.push(b) + other);
        assert(x[0] == same[0] && y[0] == same[0]);
    }
}

/// Trimming cuts whitespace off the ends and nothing else: what is left is a run of the text that
/// neither starts nor ends with whitespace, and all around it is whitespace.
pub proof fn lemma_trimmed(s: Seq<char>) -> (from: int)
    ensures
        0 <= from,
        from + trimmed(s).len() <= s.len(),
        trimmed(s) == s.subrange(from, from + trimmed(s).len()),
        forall|i: int| 0 <= i < from ==> is_whitespace(#[trigger] s[i]),
        forall|i: int| from + trimmed(s).len() <= i < s.len() ==> is_whitespace(#[trigger] s[i]),
        trimmed(s).len() > 0 ==> !is_whitespace(trimmed(s)[0]) && !is_whitespace(trimmed(s).last()),
{
    let from = lemma_trim_start(s);
    lemma_trim_end(s.skip(from));
    let n = trimmed(s).len() as int;
    assert(trimmed(s) =~= s.subrange(from, from + n));
    assert forall|i: int| from + n <= i < s.len() implies is_whitespace(#[trigger] s[i]) by {
        assert(s.skip(from)[i - from] == s[i]);
    }
    from
}

proof fn lemma_trim_start(s: Seq<char>) -> (from: int)
    ensures
        0 <= from <= s.len(),
        trim_start(s) == s.skip(from),
        forall|i: int| 0 <= i < from ==> is_whitespace(#[trigger] s[i]),
        from < s.len() ==> !is_whitespace(s[from]),
    decreases s.len(),
{
    if s.len() > 0 && is_whitespace(s[0]) {
        let rest = s.drop_first();
        let from = lemma_trim_start(rest);
        assert(rest.skip(from) =~= s.skip(from + 1));
        assert forall|i: int| 0 <= i < from + 1 implies is_whitespace(#[trigger] s[i]) by {
            if i > 0 {
                assert(rest[i - 1] == s[i]);
            }
        }
        from + 1
    } else {
        assert(s.skip(0) =~= s);
        0
    }
}

proof fn lemma_trim_end(s: Seq<char>)
    ensures
        trim_end(s).is_prefix_of(s),
        trim_end(s).len() > 0 ==> !is_whitespace(trim_end(s).last()),
        forall|i: int| trim_end(s).len() <= i < s.len() ==> is_whitespace(#[trigger] s[i]),
    decreases s.len(),
{
    if s.len() > 0 && is_whitespace(s.last()) {
        lemma_trim_end(s.drop_last());
        assert forall|i: int| trim_end(s).len() <= i < s.len() implies is_whitespace(
            #[trigger] s[i],
        ) by {
            if i < s.len() - 1 {
                assert(s.drop_last()[i] == s[i]);
            }
        }
    }
}

/// A text with no whitespace at its ends is left as it is.
pub proof fn lemma_trimmed_is_kept(s: Seq<char>)
    requires
        s.len() > 0 ==> !is_whitespace(s[0]) && !is_whitespace(s.last()),
    ensures
        trimmed(s) == s,
{
}

/// Cutting one character off the end of a text cuts off all that stand there, and nothing else.
pub proof fn lemma_trim_end_of(s: Seq<char>, c: char)
    ensures
        trim_end_of(s, c).is_prefix_of(s),
        trim_end_of(s, c).len() > 0 ==> trim_end_of(s, c).last() != c,
        forall|i: int| trim_end_of(s, c).len() <= i < s.len() ==> #[trigger] s[i] == c,
    decreases s.len(),
{
    if s.len() > 0 && s.last() == c {
        lemma_trim_end_of(s.drop_last(), c);
        assert forall|i: int| trim_end_of(s, c).len() <= i < s.len() implies #[trigger] s[i] == c by {
            if i < s.len() - 1 {
                assert(s.drop_last()[i] == s[i]);
            }
        }
    }
}

/// Parts of a text that are joined are there again when the text is split, and joined again they
/// are the text: splitting loses nothing, and no part holds what the text is split at.
pub proof fn lemma_split_is_undone_by_joining(s: Seq<char>, c: char, from: int)
    requires
        0 <= from <= s.len(),
    ensures
        split_from(s, c, from).len() > 0,
        joined(split_from(s, c, from), seq![c]) == s.skip(from),
        forall|i: int|
            0 <= i < split_from(s, c, from).len() ==> !(#[trigger] split_from(s, c, from)[i]).contains(c),
    decreases s.len() - from,
{
    reveal_with_fuel(joined, 2);
    lemma_position_from(s, c, from);
    let at = position_from(s, c, from);
    let parts = split_from(s, c, from);
    if at >= s.len() {
        assert(parts =~= seq![s.skip(from)]);
        assert forall|i: int| 0 <= i < parts.len() implies !(#[trigger] parts[i]).contains(c) by {
            if parts[i].contains(c) {
                let k = choose|k: int| 0 <= k < parts[i].len() && parts[i][k] == c;
                assert(s[from + k] == c);
            }
        }
    } else {
        lemma_split_is_undone_by_joining(s, c, at + 1);
        let rest = split_from(s, c, at + 1);
        assert(parts =~= seq![s.subrange(from, at)] + rest);
        lemma_joined_first(parts, seq![c]);
        assert(parts.drop_first() =~= rest);
        assert(s.subrange(from, at) + seq![c] + s.skip(at + 1) =~= s.skip(from));
        assert forall|i: int| 0 <= i < parts.len() implies !(#[trigger] parts[i]).contains(c) by {
            if i == 0 {
                if parts[0].contains(c) {
                    let k = choose|k: int| 0 <= k < parts[0].len() && parts[0][k] == c;
                    assert(s[from + k] == c);
                }
            } else {
                assert(parts[i] == rest[i - 1]);
            }
        }
    }
}

/// Joining parts to more parts puts the separator between the two.
pub proof fn lemma_joined_first(parts: Seq<Seq<char>>, sep: Seq<char>)
    requires
        parts.len() >= 2,
    ensures
        joined(parts, sep) == parts[0] + sep + joined(parts.drop_first(), sep),
    decreases parts.len(),
{
    reveal_with_fuel(joined, 3);
    let rest = parts.drop_first();
    if parts.len() == 2 {
        assert(parts.drop_last() =~= seq![parts[0]]);
        assert(rest =~= seq![parts[1]]);
    } else {
        let head = parts.drop_last();
        lemma_joined_first(head, sep);
        assert(head.drop_first() =~= rest.drop_last());
        assert(joined(parts, sep) =~= parts[0] + sep + joined(rest, sep));
    }
}

/// The letters of the alphabet are made small, and no other character changes.
pub proof fn lemma_ascii_lower(c: char)
    ensures
        'A' <= c <= 'Z' ==> ascii_lower(c) as int == c as int + 32,
        'A' <= c <= 'Z' ==> 'a' <= ascii_lower(c) <= 'z',
        !('A' <= c <= 'Z') ==> ascii_lower(c) == c,
        ascii_lower(ascii_lower(c)) == ascii_lower(c),
{
}

/// The number that the digits of a text stand for.
pub open spec fn number_from(s: Seq<char>) -> int
    decreases s.len(),
{
    if s.len() == 0 {
        0
    } else {
        number_from(s.drop_last()) * 10 + (s.last() as int - '0' as int)
    }
}

/// A number is written with digits alone, and its digits stand for the number. No number but zero
/// starts with a zero.
pub proof fn lemma_decimal_is_the_number(n: nat)
    ensures
        decimal(n).len() > 0,
        forall|i: int| 0 <= i < decimal(n).len() ==> '0' <= #[trigger] decimal(n)[i] <= '9',
        number_from(decimal(n)) == n,
        n > 0 ==> decimal(n)[0] != '0',
    decreases n,
{
    reveal_with_fuel(number_from, 2);
    let d = (n % 10) as int;
    assert(digit(n) as int == 48 + d);
    if n < 10 {
        assert(decimal(n).drop_last() =~= Seq::<char>::empty());
    } else {
        lemma_decimal_is_the_number(n / 10);
        assert(decimal(n).drop_last() =~= decimal(n / 10));
        assert(n == (n / 10) * 10 + n % 10);
    }
}

/// A text that may be missing looks like the text, or like none.
pub proof fn lemma_optional_texts(t: Option<String>)
    ensures
        match t {
            Some(s) => opt_view(t) == Some(s@),
            None => opt_view(t) is None,
        },
{
}

/// A list of texts looks like the texts, one by one.
pub proof fn lemma_views(parts: Seq<String>, i: int)
    ensures
        views(parts).len() == parts.len(),
        0 <= i < parts.len() ==> views(parts)[i] == parts[i]@,
{
}

/// A text contains another if and only if it is the other with something before and behind it.
pub proof fn lemma_contained_text(before: Seq<char>, text: Seq<char>, behind: Seq<char>)
    ensures
        contains_text(before + text + behind, text),
{
    let whole = before + text + behind;
    assert(whole.subrange(before.len() as int, before.len() as int + text.len()) =~= text);
}

/// A text in small letters is the text with each letter made small.
pub proof fn lemma_ascii_lowered(s: Seq<char>, i: int)
    ensures
        ascii_lowered(s).len() == s.len(),
        0 <= i < s.len() ==> ascii_lowered(s)[i] == ascii_lower(s[i]),
{
}

} // verus!
