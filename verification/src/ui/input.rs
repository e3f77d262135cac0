//! How text fields are drawn.

use vstd::prelude::*;

use crate::strings::flat;
use crate::text::{lemma_split, on_boundary, slice, split_at, split_index, to_chars};
use crate::ui::theme;

verus! {

/// A piece of a text field, from left to right.
#[derive(Debug, PartialEq, Eq)]
pub enum Segment {
    Caret,
    Text(String),
    Selected(String),
    Placeholder(String),
}

pub enum SegmentView {
    Caret,
    Text(Seq<char>),
    Selected(Seq<char>),
    Placeholder(Seq<char>),
}

impl View for Segment {
    type V = SegmentView;

    open spec fn view(&self) -> SegmentView {
        match self {
            Segment::Caret => SegmentView::Caret,
            Segment::Text(s) => SegmentView::Text(s@),
            Segment::Selected(s) => SegmentView::Selected(s@),
            Segment::Placeholder(s) => SegmentView::Placeholder(s@),
        }
    }
}

pub open spec fn segment_views(segments: Seq<Segment>) -> Seq<SegmentView> {
    segments.map_values(|s: Segment| s@)
}

/// A piece, unless it is empty.
pub open spec fn piece(text: Seq<char>, selected: bool) -> Seq<SegmentView> {
    if text.len() == 0 {
        Seq::empty()
    } else if selected {
        seq![SegmentView::Selected(text)]
    } else {
        seq![SegmentView::Text(text)]
    }
}

pub open spec fn caret_if(shown: bool) -> Seq<SegmentView> {
    if shown {
        seq![SegmentView::Caret]
    } else {
        Seq::empty()
    }
}

/// The pieces of a field that holds text. Offsets are in bytes of the text that is displayed.
pub open spec fn text_segments(
    display: Seq<char>,
    focused: bool,
    selection: Option<(usize, usize)>,
    caret: int,
) -> Seq<SegmentView> {
    match selection {
        Some((from, to)) => {
            let i = split_index(display, from as int);
            let j = split_index(display, to as int);
            caret_if(focused && caret <= from) + piece(display.take(i), false) + piece(
                display.subrange(i, j),
                true,
            ) + caret_if(focused && caret > from && caret >= to) + piece(display.skip(j), false)
        },
        None => {
            let i = split_index(display, caret);
            piece(display.take(i), false) + caret_if(focused) + piece(display.skip(i), false)
        },
    }
}

fn push_piece(segments: &mut Vec<Segment>, text: String, selected: bool)
    ensures
        segment_views(final(segments)@) == segment_views(old(segments)@) + piece(text@, selected),
{
    let ghost before = segments@;
    let ghost added = piece(text@, selected);
    let chars: Vec<char> = to_chars(text.as_str());
    if chars.len() == 0 {
        assert(segment_views(before) + added =~= segment_views(before));
        return ;
    }
    if selected {
        segments.push(Segment::Selected(text));
    } else {
        segments.push(Segment::Text(text));
    }
    assert(segment_views(segments@) =~= segment_views(before) + added);
}

fn push_caret(segments: &mut Vec<Segment>, shown: bool)
    ensures
        segment_views(final(segments)@) == segment_views(old(segments)@) + caret_if(shown),
{
    let ghost before = segments@;
    if shown {
        segments.push(Segment::Caret);
    }
    assert(segment_views(segments@) =~= segment_views(before) + caret_if(shown));
}

/// The pieces of a field: what it holds, with the selection and the caret in it, or else its
/// placeholder.
pub fn input_segments(
    display: &str,
    placeholder: &str,
    empty: bool,
    focused: bool,
    selection: Option<(usize, usize)>,
    caret: usize,
) -> (r: Vec<Segment>)
    requires
        !empty ==> match selection {
            Some((from, to)) => from <= to && on_boundary(display@, from as int) && on_boundary(
                display@,
                to as int,
            ),
            None => on_boundary(display@, caret as int),
        },
    ensures
        segment_views(r@) == if empty {
            caret_if(focused) + seq![SegmentView::Placeholder(placeholder@)]
        } else {
            text_segments(display@, focused, selection, caret as int)
        },
{
    let mut r: Vec<Segment> = Vec::new();
    assert(segment_views(r@) =~= Seq::empty());
    if empty {
        push_caret(&mut r, focused);
        r.push(Segment::Placeholder(placeholder.to_string()));
        assert(segment_views(r@) =~= caret_if(focused) + seq![
            SegmentView::Placeholder(placeholder@),
        ]);
        return r;
    }
    match selection {
        Some((from, to)) => {
            let (before, _rest) = split_at(display, from);
            let middle: String = slice(display, from, to);
            let (_head, after) = split_at(display, to);
            push_caret(&mut r, focused && caret <= from);
            push_piece(&mut r, before.to_string(), false);
            push_piece(&mut r, middle, true);
            push_caret(&mut r, focused && caret > from && caret >= to);
            push_piece(&mut r, after.to_string(), false);
        },
        None => {
            let (before, after) = split_at(display, caret);
            push_piece(&mut r, before.to_string(), false);
            push_caret(&mut r, focused);
            push_piece(&mut r, after.to_string(), false);
        },
    }
    assert(segment_views(r@) =~= text_segments(display@, focused, selection, caret as int));
    r
}

/// The text that a piece shows.
pub open spec fn segment_text(segment: SegmentView) -> Seq<char> {
    match segment {
        SegmentView::Caret => Seq::empty(),
        SegmentView::Text(s) => s,
        SegmentView::Selected(s) => s,
        SegmentView::Placeholder(s) => s,
    }
}

pub open spec fn shown_text(segments: Seq<SegmentView>) -> Seq<char> {
    flat(segments.map_values(|s: SegmentView| segment_text(s)))
}

proof fn lemma_shown_concat(a: Seq<SegmentView>, b: Seq<SegmentView>)
    ensures
        shown_text(a + b) == shown_text(a) + shown_text(b),
{
    let f = |s: SegmentView| segment_text(s);
    assert((a + b).map_values(f) =~= a.map_values(f) + b.map_values(f));
    crate::strings::lemma_flat_concat(a.map_values(f), b.map_values(f));
}

proof fn lemma_shown_piece(text: Seq<char>, selected: bool)
    ensures
        shown_text(piece(text, selected)) == text,
{
    let f = |s: SegmentView| segment_text(s);
    if text.len() == 0 {
        assert(piece(text, selected).map_values(f) =~= Seq::empty());
        assert(text =~= Seq::empty());
    } else {
        assert(piece(text, selected).map_values(f) =~= seq![text]);
        crate::strings::lemma_flat_one(text);
    }
}

proof fn lemma_shown_caret(shown: bool)
    ensures
        shown_text(caret_if(shown)) == Seq::<char>::empty(),
{
    let f = |s: SegmentView| segment_text(s);
    if shown {
        assert(caret_if(shown).map_values(f) =~= seq![Seq::<char>::empty()]);
        crate::strings::lemma_flat_one(Seq::empty());
    } else {
        assert(caret_if(shown).map_values(f) =~= Seq::empty());
    }
}

/// A field that holds text shows all of it, in order, whatever is selected and wherever the
/// caret is.
pub proof fn lemma_segments_show_the_text(
    display: Seq<char>,
    focused: bool,
    selection: Option<(usize, usize)>,
    caret: int,
)
    requires
        match selection {
            Some((from, to)) => from <= to && on_boundary(display, from as int) && on_boundary(
                display,
                to as int,
            ),
            None => on_boundary(display, caret),
        },
    ensures
        shown_text(text_segments(display, focused, selection, caret)) == display,
{
    match selection {
        Some((from, to)) => {
            let i = split_index(display, from as int);
            let j = split_index(display, to as int);
            lemma_split(display, from as int);
            lemma_split(display, to as int);
            if j < i {
                crate::text::lemma_prefix_len_monotonic(display, j, i);
            }
            let a = caret_if(focused && caret <= from);
            let b = piece(display.take(i), false);
            let c = piece(display.subrange(i, j), true);
            let d = caret_if(focused && caret > from && caret >= to);
            let e = piece(display.skip(j), false);
            lemma_shown_concat(a, b);
            lemma_shown_concat(a + b, c);
            lemma_shown_concat(a + b + c, d);
            lemma_shown_concat(a + b + c + d, e);
            lemma_shown_caret(focused && caret <= from);
            lemma_shown_caret(focused && caret > from && caret >= to);
            lemma_shown_piece(display.take(i), false);
            lemma_shown_piece(display.subrange(i, j), true);
            lemma_shown_piece(display.skip(j), false);
            assert(shown_text(a + b + c + d + e) =~= display);
        },
        None => {
            let i = split_index(display, caret);
            lemma_split(display, caret);
            let a = piece(display.take(i), false);
            let b = caret_if(focused);
            let c = piece(display.skip(i), false);
            lemma_shown_concat(a, b);
            lemma_shown_concat(a + b, c);
            lemma_shown_caret(focused);
            lemma_shown_piece(display.take(i), false);
            lemma_shown_piece(display.skip(i), false);
            assert(shown_text(a + b + c) =~= display);
        },
    }
}

/// The colours of a field: of its border and of its background.
pub fn input_colors(focused: bool) -> (r: (u32, u32))
    ensures
        r == if focused {
            (theme::INPUT_BORDER_FOCUSED, theme::INPUT_BG_FOCUSED)
        } else {
            (theme::INPUT_BORDER, theme::INPUT_BG)
        },
{
    if focused {
        (theme::INPUT_BORDER_FOCUSED, theme::INPUT_BG_FOCUSED)
    } else {
        (theme::INPUT_BORDER, theme::INPUT_BG)
    }
}

// ---------------------------------------------------------------------------
// Text that is still being composed
// ---------------------------------------------------------------------------
/// A run of text in one style.
#[derive(Clone, Copy, Debug, PartialEq, Eq, Structural)]
pub struct InputRun {
    /// In bytes.
    pub len: usize,
    pub underlined: bool,
}

/// A run, unless it is empty.
pub open spec fn run_of(len: int, underlined: bool) -> Seq<InputRun> {
    if len > 0 {
        seq![InputRun { len: len as usize, underlined }]
    } else {
        Seq::empty()
    }
}

/// The runs of a text: what is being composed is underlined.
pub open spec fn runs_of(len: int, marked: Option<(usize, usize)>) -> Seq<InputRun> {
    match marked {
        Some((from, to)) => run_of(from as int, false) + run_of(to - from, true) + run_of(
            len - to,
            false,
        ),
        None => seq![InputRun { len: len as usize, underlined: false }],
    }
}

fn push_run(runs: &mut Vec<InputRun>, len: usize, underlined: bool)
    ensures
        final(runs)@ == old(runs)@ + run_of(len as int, underlined),
{
    if len > 0 {
        runs.push(InputRun { len, underlined });
    }
}

/// The runs in which a text of `len` bytes is drawn. `marked` is what an input method is still
/// composing.
pub fn input_runs(len: usize, marked: Option<(usize, usize)>) -> (r: Vec<InputRun>)
    ensures
        r@ == runs_of(len as int, marked),
{
    let mut runs: Vec<InputRun> = Vec::new();
    match marked {
        Some((from, to)) => {
            push_run(&mut runs, from, false);
            push_run(&mut runs, to.saturating_sub(from), true);
            push_run(&mut runs, len.saturating_sub(to), false);
        },
        None => {
            runs.push(InputRun { len, underlined: false });
        },
    }
    runs
}

/// How many bytes runs are for together.
pub open spec fn covered(runs: Seq<InputRun>) -> int
    decreases runs.len(),
{
    if runs.len() == 0 {
        0
    } else {
        covered(runs.drop_last()) + runs.last().len
    }
}

proof fn lemma_covered_run(runs: Seq<InputRun>, len: int, underlined: bool)
    requires
        0 <= len <= usize::MAX,
    ensures
        covered(runs + run_of(len, underlined)) == covered(runs) + len,
{
    if len > 0 {
        let run = InputRun { len: len as usize, underlined };
        assert(runs + run_of(len, underlined) =~= runs.push(run));
        assert(runs.push(run).drop_last() =~= runs);
    } else {
        assert(runs + run_of(len, underlined) =~= runs);
    }
}

/// Runs leave nothing of the text out, and draw nothing twice.
pub proof fn lemma_runs_cover_the_text(len: usize, marked: Option<(usize, usize)>)
    requires
        marked matches Some((from, to)) ==> from <= to <= len,
    ensures
        covered(runs_of(len as int, marked)) == len,
{
    match marked {
        Some((from, to)) => {
            let none = Seq::<InputRun>::empty();
            assert(none + run_of(from as int, false) =~= run_of(from as int, false));
            lemma_covered_run(none, from as int, false);
            lemma_covered_run(run_of(from as int, false), to - from, true);
            lemma_covered_run(
                run_of(from as int, false) + run_of(to - from, true),
                len - to,
                false,
            );
        },
        None => {
            let run = InputRun { len, underlined: false };
            assert(seq![run].drop_last() =~= Seq::<InputRun>::empty());
            assert(covered(Seq::<InputRun>::empty()) == 0);
        },
    }
}

/// What one sees of a piece of a field is what it holds.
pub proof fn lemma_segments_are_what_is_seen(segment: Segment)
    ensures
        match segment {
            Segment::Caret => segment@ is Caret,
            Segment::Text(s) => segment@ == SegmentView::Text(s@),
            Segment::Selected(s) => segment@ == SegmentView::Selected(s@),
            Segment::Placeholder(s) => segment@ == SegmentView::Placeholder(s@),
        },
{
}

/// The caret is drawn where it is: between what stands before it and what stands behind it. Only a
/// field that is typed in shows one.
pub proof fn lemma_caret_is_between(before: Seq<char>, behind: Seq<char>, focused: bool)
    requires
        before.len() > 0,
        behind.len() > 0,
    ensures
        ({
            let shown = text_segments(
                before + behind,
                focused,
                None,
                crate::text::byte_len(before) as int,
            );
            &&& focused ==> shown == seq![
                SegmentView::Text(before),
                SegmentView::Caret,
                SegmentView::Text(behind),
            ]
            &&& !focused ==> shown == seq![SegmentView::Text(before), SegmentView::Text(behind)]
        }),
{
    let s = before + behind;
    let k = before.len() as int;
    assert(s.take(k) =~= before);
    let i = split_index(s, crate::text::byte_len(before) as int);
    assert(crate::text::byte_len(s.take(k)) == crate::text::byte_len(before));
    crate::text::lemma_prefix_len_injective(s, i, k);
    assert(s.skip(k) =~= behind);
}

/// What is selected is drawn as selected, and what stands before and behind it is not; the caret is
/// drawn at the end that it is on.
pub proof fn lemma_selection_is_drawn(
    before: Seq<char>,
    middle: Seq<char>,
    behind: Seq<char>,
    focused: bool,
    from: usize,
    to: usize,
)
    requires
        before.len() > 0,
        middle.len() > 0,
        behind.len() > 0,
        from == crate::text::byte_len(before),
        to == crate::text::byte_len(before + middle),
    ensures
        ({
            let s = before + middle + behind;
            let parts = seq![
                SegmentView::Text(before),
                SegmentView::Selected(middle),
                SegmentView::Text(behind),
            ];
            &&& text_segments(s, false, Some((from, to)), to as int) == parts
            &&& text_segments(s, true, Some((from, to)), to as int) == seq![
                SegmentView::Text(before),
                SegmentView::Selected(middle),
                SegmentView::Caret,
                SegmentView::Text(behind),
            ]
            &&& text_segments(s, true, Some((from, to)), from as int) == seq![SegmentView::Caret]
                + parts
        }),
{
    let s = before + middle + behind;
    let a = before.len() as int;
    let b = (before.len() + middle.len()) as int;
    assert(s.take(a) =~= before);
    assert(s.take(b) =~= before + middle);
    assert(crate::text::byte_len(s.take(a)) == from);
    assert(crate::text::byte_len(s.take(b)) == to);
    let i = split_index(s, from as int);
    let j = split_index(s, to as int);
    crate::text::lemma_prefix_len_injective(s, i, a);
    crate::text::lemma_prefix_len_injective(s, j, b);
    assert(s.subrange(a, b) =~= middle);
    assert(s.skip(b) =~= behind);
    crate::text::lemma_prefix_len_monotonic(s, a, b);
}

/// What an input method has marked is underlined, and nothing else.
pub proof fn lemma_marked_text_is_underlined(len: usize, from: usize, to: usize)
    requires
        0 < from < to < len,
    ensures
        runs_of(len as int, Some((from, to))) == seq![
            InputRun { len: from, underlined: false },
            InputRun { len: (to - from) as usize, underlined: true },
            InputRun { len: (len - to) as usize, underlined: false },
        ],
        runs_of(len as int, None) == seq![InputRun { len, underlined: false }],
{
}

} // verus!
