//! Reading the text of a three-way merge that did not come out clean.

use vstd::prelude::*;
use vstd::string::StringExecFns;

use crate::strings::{concat, contains_text, flat, lemma_flat_concat, lemma_flat_one, starts_with, str_views};
use crate::text::{byte_len, bytes_of, char_len, lemma_byte_len_bound, lemma_bytes_concat, lemma_bytes_push};
use crate::text::{lemma_prefix_boundary, lemma_boundary_left, lemma_prefix_len_injective, lemma_split, on_boundary, split_at, split_index, str_len};
use crate::types::conflicts::ConflictBlock;
use crate::types::GitError;

verus! {

// ---------------------------------------------------------------------------
// Lines
// ---------------------------------------------------------------------------
/// One past the first newline at or after `i`, or the length.
pub open spec fn line_end(s: Seq<char>, i: int) -> int
    decreases s.len() - i,
{
    if i < 0 || i >= s.len() {
        s.len() as int
    } else if s[i] == '\n' {
        i + 1
    } else {
        line_end(s, i + 1)
    }
}

/// The lines of `s`, each with the newline that ends it.
pub open spec fn lines_of(s: Seq<char>) -> Seq<Seq<char>>
    decreases s.len(),
{
    if s.len() == 0 {
        Seq::empty()
    } else if 0 < line_end(s, 0) <= s.len() {
        seq![s.take(line_end(s, 0))] + lines_of(s.skip(line_end(s, 0)))
    } else {
        arbitrary()
    }
}

pub proof fn lemma_line_end(s: Seq<char>, i: int)
    requires
        0 <= i < s.len(),
    ensures
        i < line_end(s, i) <= s.len(),
        forall|j: int| i <= j < line_end(s, i) - 1 ==> s[j] != '\n',
        line_end(s, i) < s.len() ==> s[line_end(s, i) - 1] == '\n',
    decreases s.len() - i,
{
    reveal_with_fuel(line_end, 2);
    if s[i] != '\n' && i + 1 < s.len() {
        lemma_line_end(s, i + 1);
    }
}

/// A run of text that can be one line: it ends in its only newline, or at the end of the text.
pub open spec fn is_line(line: Seq<char>, last: bool) -> bool {
    &&& line.len() > 0
    &&& forall|j: int| 0 <= j < line.len() - 1 ==> line[j] != '\n'
    &&& !last ==> line.last() == '\n'
}

/// Cutting a text into lines loses nothing: put together again, the lines are the text,
/// and every line but the last ends in its only newline.
pub proof fn lemma_lines_flat(s: Seq<char>)
    ensures
        flat(lines_of(s)) == s,
        forall|i: int|
            0 <= i < lines_of(s).len() ==> is_line(
                #[trigger] lines_of(s)[i],
                i == lines_of(s).len() - 1,
            ),
    decreases s.len(),
{
    if s.len() == 0 {
        assert(flat(lines_of(s)) =~= s);
    } else {
        lemma_line_end(s, 0);
        let n = line_end(s, 0);
        let head = s.take(n);
        let rest = s.skip(n);
        lemma_lines_flat(rest);
        lemma_flat_concat(seq![head], lines_of(rest));
        lemma_flat_one(head);
        assert(flat(lines_of(s)) =~= s);
        assert forall|i: int| 0 <= i < lines_of(s).len() implies is_line(
            #[trigger] lines_of(s)[i],
            i == lines_of(s).len() - 1,
        ) by {
            if i == 0 {
                if rest.len() == 0 {
                    assert(lines_of(rest).len() == 0);
                } else {
                    assert(n < s.len());
                }
            } else {
                assert(lines_of(s)[i] == lines_of(rest)[i - 1]);
            }
        }
    }
}

fn first_line_len(s: &str) -> (n: usize)
    requires
        s@.len() > 0,
    ensures
        n == byte_len(s@.take(line_end(s@, 0))),
{
    let total: usize = str_len(s);
    let mut n: usize = 0;
    proof {
        lemma_byte_len_bound(s@.take(0));
    }
    for c in it: s.chars()
        invariant
            it.seq() == s@,
            total == byte_len(s@),
            n == byte_len(s@.take(it.index() as int)),
            line_end(s@, 0) == line_end(s@, it.index() as int),
    {
        proof {
            let k = it.index() as int;
            assert(s@.take(k + 1) =~= s@.take(k).push(c));
            lemma_bytes_push(s@.take(k), c);
            assert(s@ =~= s@.take(k + 1) + s@.skip(k + 1));
            lemma_bytes_concat(s@.take(k + 1), s@.skip(k + 1));
        }
        n = n + char_len(c);
        if c == '\n' {
            return n;
        }
    }
    n
}

/// The lines of `content`, each with the newline that ends it.
pub fn split_lines_preserve_endings<'a>(content: &'a str) -> (lines: Vec<&'a str>)
    ensures
        str_views(lines@) == lines_of(content@),
{
    let mut lines: Vec<&'a str> = Vec::new();
    let mut rest: &'a str = content;
    assert(str_views(lines@) =~= Seq::<Seq<char>>::empty());
    assert(lines_of(content@) =~= str_views(lines@) + lines_of(rest@));
    while !rest.is_empty()
        invariant
            lines_of(content@) == str_views(lines@) + lines_of(rest@),
        decreases rest@.len(),
    {
        let cut: usize = first_line_len(rest);
        proof {
            lemma_line_end(rest@, 0);
            let n = line_end(rest@, 0);
            assert(rest@ =~= rest@.take(n) + rest@.skip(n));
            lemma_prefix_boundary(rest@.take(n), rest@.skip(n));
            lemma_split(rest@, cut as int);
            lemma_prefix_len_injective(rest@, n, split_index(rest@, cut as int));
        }
        let ghost before = lines@;
        let (line, tail) = split_at(rest, cut);
        lines.push(line);
        assert(str_views(lines@) =~= str_views(before).push(line@));
        assert(str_views(before) + lines_of(rest@) =~= str_views(lines@) + lines_of(tail@));
        rest = tail;
    }
    assert(lines_of(rest@) =~= Seq::<Seq<char>>::empty());
    assert(str_views(lines@) + lines_of(rest@) =~= str_views(lines@));
    lines
}

// ---------------------------------------------------------------------------
// Conflict markers
// ---------------------------------------------------------------------------
pub open spec fn ours_mark() -> Seq<char> {
    "<<<<<<< OURS"@
}

pub open spec fn base_mark() -> Seq<char> {
    "||||||| BASE"@
}

pub open spec fn middle_mark() -> Seq<char> {
    "======="@
}

pub open spec fn theirs_mark() -> Seq<char> {
    ">>>>>>> THEIRS"@
}

/// What a conflict lacks when its text ends too early.
pub enum Diff3Fault {
    NoBase,
    NoMiddle,
    NoEnd,
}

pub open spec fn fault_text(fault: Diff3Fault) -> Seq<char> {
    match fault {
        Diff3Fault::NoBase => "冲突文本缺少 BASE 分隔标记"@,
        Diff3Fault::NoMiddle => "冲突文本缺少中间分隔标记"@,
        Diff3Fault::NoEnd => "冲突文本缺少 THEIRS 结束标记"@,
    }
}

/// The three sides of a conflict, and the offset at which its first side stands in the draft.
pub struct BlockText {
    pub start: nat,
    pub ours: Seq<char>,
    pub base: Seq<char>,
    pub theirs: Seq<char>,
}

/// The first line from `from` on that starts with `mark`, or the number of lines.
pub open spec fn marked_line(lines: Seq<Seq<char>>, mark: Seq<char>, from: int) -> int
    decreases lines.len() - from,
{
    if from < 0 || from >= lines.len() {
        lines.len() as int
    } else if mark.is_prefix_of(lines[from]) {
        from
    } else {
        marked_line(lines, mark, from + 1)
    }
}

pub proof fn lemma_marked_line(lines: Seq<Seq<char>>, mark: Seq<char>, from: int)
    requires
        0 <= from <= lines.len(),
    ensures
        from <= marked_line(lines, mark, from) <= lines.len(),
        forall|i: int|
            from <= i < marked_line(lines, mark, from) ==> !mark.is_prefix_of(#[trigger] lines[i]),
        marked_line(lines, mark, from) < lines.len() ==> mark.is_prefix_of(
            lines[marked_line(lines, mark, from)],
        ),
    decreases lines.len() - from,
{
    if from < lines.len() && !mark.is_prefix_of(lines[from]) {
        lemma_marked_line(lines, mark, from + 1);
    }
}

/// What the lines from `at` on add to a draft and its blocks: lines outside conflicts are
/// taken over, and of each conflict the side "ours" is.
pub open spec fn parsed(
    lines: Seq<Seq<char>>,
    at: int,
    draft: Seq<char>,
    blocks: Seq<BlockText>,
) -> Result<(Seq<char>, Seq<BlockText>), Diff3Fault>
    decreases lines.len() - at,
{
    if at < 0 || at >= lines.len() {
        Ok((draft, blocks))
    } else if !ours_mark().is_prefix_of(lines[at]) {
        parsed(lines, at + 1, draft + lines[at], blocks)
    } else {
        let a = marked_line(lines, base_mark(), at + 1);
        let b = marked_line(lines, middle_mark(), a + 1);
        let t = marked_line(lines, theirs_mark(), b + 1);
        if a >= lines.len() {
            Err(Diff3Fault::NoBase)
        } else if b >= lines.len() {
            Err(Diff3Fault::NoMiddle)
        } else if t >= lines.len() {
            Err(Diff3Fault::NoEnd)
        } else if t <= at {
            arbitrary()
        } else {
            let block = BlockText {
                start: byte_len(draft),
                ours: flat(lines.subrange(at + 1, a)),
                base: flat(lines.subrange(a + 1, b)),
                theirs: flat(lines.subrange(b + 1, t)),
            };
            parsed(lines, t + 1, draft + block.ours, blocks.push(block))
        }
    }
}

/// What the text of a merge says: the draft that takes side "ours" of each conflict, and
/// the conflicts.
pub open spec fn parsed_text(content: Seq<char>) -> Result<
    (Seq<char>, Seq<BlockText>),
    Diff3Fault,
> {
    parsed(lines_of(content), 0, Seq::empty(), Seq::empty())
}

/// Whether `block` is the conflict `text`, not yet resolved.
pub open spec fn is_fresh_block(block: ConflictBlock, text: BlockText) -> bool {
    &&& block.base matches Some(base) && base@ == text.base
    &&& block.ours@ == text.ours
    &&& block.theirs@ == text.theirs
    &&& block.start == text.start
    &&& block.end == text.start + byte_len(text.ours)
    &&& block.resolution is None
    &&& !block.has_manual_edits
}

pub open spec fn are_fresh_blocks(blocks: Seq<ConflictBlock>, texts: Seq<BlockText>) -> bool {
    &&& blocks.len() == texts.len()
    &&& forall|i: int| 0 <= i < blocks.len() ==> is_fresh_block(#[trigger] blocks[i], texts[i])
}

fn find_marked(lines: &Vec<&str>, mark: &str, from: usize) -> (r: usize)
    requires
        from <= lines@.len(),
    ensures
        r == marked_line(str_views(lines@), mark@, from as int),
        from <= r <= lines@.len(),
{
    let mut i: usize = from;
    while i < lines.len()
        invariant
            from <= i <= lines@.len(),
            marked_line(str_views(lines@), mark@, from as int) == marked_line(
                str_views(lines@),
                mark@,
                i as int,
            ),
        decreases lines@.len() - i,
    {
        assert(str_views(lines@)[i as int] == lines@[i as int]@);
        if starts_with(lines[i], mark) {
            return i;
        }
        i = i + 1;
    }
    i
}

/// Reads the text of a three-way merge with the labels `OURS`, `BASE` and `THEIRS`.
pub fn parse_diff3_conflict_text(content: &str) -> (r: Result<
    (String, Vec<ConflictBlock>),
    GitError,
>)
    ensures
        match parsed_text(content@) {
            Ok((draft, texts)) => {
                &&& r matches Ok((d, blocks))
                &&& d@ == draft
                &&& are_fresh_blocks(blocks@, texts)
            },
            Err(fault) => r matches Err(e) && e.says(fault_text(fault)),
        },
{
    let lines: Vec<&str> = split_lines_preserve_endings(content);
    let ghost views = str_views(lines@);
    let mut index: usize = 0;
    let mut draft = String::new();
    let mut blocks: Vec<ConflictBlock> = Vec::new();
    let ghost mut texts: Seq<BlockText> = Seq::empty();
    assert(draft@ =~= Seq::<char>::empty());
    while index < lines.len()
        invariant
            index <= lines@.len(),
            views == str_views(lines@),
            parsed_text(content@) == parsed(views, index as int, draft@, texts),
            are_fresh_blocks(blocks@, texts),
        decreases lines@.len() - index,
    {
        assert(views[index as int] == lines@[index as int]@);
        if !starts_with(lines[index], "<<<<<<< OURS") {
            draft.append(lines[index]);
            index = index + 1;
            continue;
        }
        let a: usize = find_marked(&lines, "||||||| BASE", index + 1);
        if a >= lines.len() {
            return Err(GitError::Message("冲突文本缺少 BASE 分隔标记".to_string()));
        }
        let b: usize = find_marked(&lines, "=======", a + 1);
        if b >= lines.len() {
            return Err(GitError::Message("冲突文本缺少中间分隔标记".to_string()));
        }
        let t: usize = find_marked(&lines, ">>>>>>> THEIRS", b + 1);
        if t >= lines.len() {
            return Err(GitError::Message("冲突文本缺少 THEIRS 结束标记".to_string()));
        }
        let ours = concat(&lines, index + 1, a);
        let base = concat(&lines, a + 1, b);
        let theirs = concat(&lines, b + 1, t);
        let start: usize = str_len(draft.as_str());
        let ghost text = BlockText {
            start: byte_len(draft@),
            ours: ours@,
            base: base@,
            theirs: theirs@,
        };
        proof {
            lemma_bytes_concat(draft@, ours@);
            texts = texts.push(text);
        }
        draft.append(ours.as_str());
        let end: usize = str_len(draft.as_str());
        let ghost before = blocks@;
        blocks.push(
            ConflictBlock {
                base: Some(base),
                ours,
                theirs,
                start,
                end,
                resolution: None,
                has_manual_edits: false,
            },
        );
        assert(are_fresh_blocks(blocks@, texts));
        index = t + 1;
    }
    Ok((draft, blocks))
}

// ---------------------------------------------------------------------------
// Laws
// ---------------------------------------------------------------------------
/// The blocks that come so far lie one after the other in the draft, each over its side "ours".
pub open spec fn laid_out(draft: Seq<char>, texts: Seq<BlockText>) -> bool {
    &&& forall|i: int|
        0 <= i < texts.len() ==> {
            let x = #[trigger] texts[i];
            let end = x.start + byte_len(x.ours);
            &&& end <= byte_len(draft)
            &&& on_boundary(draft, x.start as int)
            &&& on_boundary(draft, end as int)
            &&& bytes_of(draft).subrange(x.start as int, end as int) == bytes_of(x.ours)
        }
    &&& forall|i: int, j: int|
        0 <= i < j < texts.len() ==> (#[trigger] texts[i]).start + byte_len(texts[i].ours) <= (
        #[trigger] texts[j]).start
}

proof fn lemma_laid_out_grows(draft: Seq<char>, texts: Seq<BlockText>, more: Seq<char>)
    requires
        laid_out(draft, texts),
    ensures
        laid_out(draft + more, texts),
{
    lemma_bytes_concat(draft, more);
    assert forall|i: int| 0 <= i < texts.len() implies {
        let x = #[trigger] texts[i];
        let end = x.start + byte_len(x.ours);
        &&& end <= byte_len(draft + more)
        &&& on_boundary(draft + more, x.start as int)
        &&& on_boundary(draft + more, end as int)
        &&& bytes_of(draft + more).subrange(x.start as int, end as int) == bytes_of(x.ours)
    } by {
        let x = texts[i];
        let end = x.start + byte_len(x.ours);
        assert(draft =~= draft + Seq::<char>::empty());
        lemma_boundary_left(draft, Seq::empty(), more, x.start as int);
        lemma_boundary_left(draft, Seq::empty(), more, end as int);
        assert(bytes_of(draft + more).subrange(x.start as int, end as int) =~= bytes_of(
            draft,
        ).subrange(x.start as int, end as int));
    }
}

proof fn lemma_parsed_laid_out(
    lines: Seq<Seq<char>>,
    at: int,
    draft: Seq<char>,
    texts: Seq<BlockText>,
)
    requires
        0 <= at <= lines.len(),
        laid_out(draft, texts),
    ensures
        parsed(lines, at, draft, texts) matches Ok((d, t)) ==> laid_out(d, t),
    decreases lines.len() - at,
{
    if at >= lines.len() {
    } else if !ours_mark().is_prefix_of(lines[at]) {
        lemma_laid_out_grows(draft, texts, lines[at]);
        lemma_parsed_laid_out(lines, at + 1, draft + lines[at], texts);
    } else {
        lemma_marked_line(lines, base_mark(), at + 1);
        let a = marked_line(lines, base_mark(), at + 1);
        if a < lines.len() {
            lemma_marked_line(lines, middle_mark(), a + 1);
            let b = marked_line(lines, middle_mark(), a + 1);
            if b < lines.len() {
                lemma_marked_line(lines, theirs_mark(), b + 1);
                let t = marked_line(lines, theirs_mark(), b + 1);
                if t < lines.len() {
                    let block = BlockText {
                        start: byte_len(draft),
                        ours: flat(lines.subrange(at + 1, a)),
                        base: flat(lines.subrange(a + 1, b)),
                        theirs: flat(lines.subrange(b + 1, t)),
                    };
                    let grown = draft + block.ours;
                    let more = texts.push(block);
                    lemma_laid_out_grows(draft, texts, block.ours);
                    lemma_prefix_boundary(draft, block.ours);
                    lemma_bytes_concat(draft, block.ours);
                    assert(grown =~= grown + Seq::<char>::empty());
                    lemma_prefix_boundary(grown, Seq::empty());
                    assert forall|i: int| 0 <= i < more.len() implies {
                        let x = #[trigger] more[i];
                        let end = x.start + byte_len(x.ours);
                        &&& end <= byte_len(grown)
                        &&& on_boundary(grown, x.start as int)
                        &&& on_boundary(grown, end as int)
                        &&& bytes_of(grown).subrange(x.start as int, end as int) == bytes_of(x.ours)
                    } by {
                        if i < texts.len() {
                            assert(more[i] == texts[i]);
                        }
                    }
                    assert forall|i: int, j: int| 0 <= i < j < more.len() implies (
                    #[trigger] more[i]).start + byte_len(more[i].ours) <= (
                    #[trigger] more[j]).start by {
                        if j < texts.len() {
                            assert(more[i] == texts[i]);
                            assert(more[j] == texts[j]);
                        } else {
                            assert(more[i] == texts[i]);
                        }
                    }
                    lemma_parsed_laid_out(lines, t + 1, grown, more);
                }
            }
        }
    }
}

/// The draft read from a merge starts out with side "ours" under every block, and its blocks
/// mark whole characters and come one after the other.
pub proof fn lemma_parsed_blocks(content: Seq<char>, draft: Seq<char>, blocks: Seq<ConflictBlock>)
    requires
        parsed_text(content) matches Ok((d, texts)) && d == draft && are_fresh_blocks(
            blocks,
            texts,
        ),
    ensures
        forall|i: int|
            0 <= i < blocks.len() ==> {
                &&& (#[trigger] blocks[i]).marks_text_of(draft)
                &&& blocks[i].marked(draft) == bytes_of(blocks[i].ours@)
            },
        forall|i: int, j: int|
            0 <= i < j < blocks.len() ==> (#[trigger] blocks[i]).end <= (
            #[trigger] blocks[j]).start,
{
    let texts = parsed_text(content)->Ok_0.1;
    lemma_parsed_laid_out(lines_of(content), 0, Seq::empty(), Seq::empty());
    assert forall|i: int| 0 <= i < blocks.len() implies {
        &&& (#[trigger] blocks[i]).marks_text_of(draft)
        &&& blocks[i].marked(draft) == bytes_of(blocks[i].ours@)
    } by {
        let x = texts[i];
        assert(is_fresh_block(blocks[i], x));
    }
    assert forall|i: int, j: int| 0 <= i < j < blocks.len() implies (#[trigger] blocks[i]).end <= (
    #[trigger] blocks[j]).start by {
        assert(is_fresh_block(blocks[i], texts[i]));
        assert(is_fresh_block(blocks[j], texts[j]));
    }
}

/// A text without a conflict is its own draft.
pub proof fn lemma_clean_text_is_its_draft(content: Seq<char>)
    requires
        forall|i: int|
            0 <= i < lines_of(content).len() ==> !ours_mark().is_prefix_of(
                #[trigger] lines_of(content)[i],
            ),
    ensures
        parsed_text(content) == Ok::<_, Diff3Fault>((content, Seq::<BlockText>::empty())),
{
    lemma_clean_lines(lines_of(content), 0, Seq::empty());
    lemma_lines_flat(content);
    let lines = lines_of(content);
    assert(lines.skip(0) =~= lines);
    assert(Seq::<char>::empty() + content =~= content);
}

proof fn lemma_clean_lines(lines: Seq<Seq<char>>, at: int, draft: Seq<char>)
    requires
        0 <= at <= lines.len(),
        forall|i: int|
            0 <= i < lines.len() ==> !ours_mark().is_prefix_of(#[trigger] lines[i]),
    ensures
        parsed(lines, at, draft, Seq::empty()) == Ok::<_, Diff3Fault>(
            (draft + flat(lines.skip(at)), Seq::<BlockText>::empty()),
        ),
    decreases lines.len() - at,
{
    if at >= lines.len() {
        assert(lines.skip(at) =~= Seq::<Seq<char>>::empty());
        assert(draft + flat(lines.skip(at)) =~= draft);
    } else {
        lemma_clean_lines(lines, at + 1, draft + lines[at]);
        assert(lines.skip(at) =~= seq![lines[at]] + lines.skip(at + 1));
        lemma_flat_concat(seq![lines[at]], lines.skip(at + 1));
        lemma_flat_one(lines[at]);
        assert(draft + flat(lines.skip(at)) =~= draft + lines[at] + flat(lines.skip(at + 1)));
    }
}

/// One conflict, written with its markers and followed by other lines, is read back as the
/// conflict it was written from.
pub proof fn lemma_written_conflict_is_read_back(
    opening: Seq<char>,
    ours: Seq<Seq<char>>,
    bar: Seq<char>,
    base: Seq<Seq<char>>,
    middle: Seq<char>,
    theirs: Seq<Seq<char>>,
    closing: Seq<char>,
    rest: Seq<Seq<char>>,
    draft: Seq<char>,
    blocks: Seq<BlockText>,
)
    requires
        ours_mark().is_prefix_of(opening),
        base_mark().is_prefix_of(bar),
        middle_mark().is_prefix_of(middle),
        theirs_mark().is_prefix_of(closing),
        forall|i: int| 0 <= i < ours.len() ==> !base_mark().is_prefix_of(#[trigger] ours[i]),
        forall|i: int| 0 <= i < base.len() ==> !middle_mark().is_prefix_of(#[trigger] base[i]),
        forall|i: int| 0 <= i < theirs.len() ==> !theirs_mark().is_prefix_of(#[trigger] theirs[i]),
    ensures
        parsed(
            seq![opening] + ours + seq![bar] + base + seq![middle] + theirs + seq![closing] + rest,
            0,
            draft,
            blocks,
        ) == parsed(
            rest,
            0,
            draft + flat(ours),
            blocks.push(
                BlockText {
                    start: byte_len(draft),
                    ours: flat(ours),
                    base: flat(base),
                    theirs: flat(theirs),
                },
            ),
        ),
{
    let lines = seq![opening] + ours + seq![bar] + base + seq![middle] + theirs + seq![closing]
        + rest;
    let a: int = 1 + ours.len() as int;
    let b: int = a + 1 + base.len();
    let t: int = b + 1 + theirs.len();
    assert(lines[0] == opening);
    assert(lines[a] == bar);
    assert(lines[b] == middle);
    assert(lines[t] == closing);
    lemma_marked_at(lines, base_mark(), 1, a);
    lemma_marked_at(lines, middle_mark(), a + 1, b);
    lemma_marked_at(lines, theirs_mark(), b + 1, t);
    assert(lines.subrange(1, a) =~= ours);
    assert(lines.subrange(a + 1, b) =~= base);
    assert(lines.subrange(b + 1, t) =~= theirs);
    let block = BlockText {
        start: byte_len(draft),
        ours: flat(ours),
        base: flat(base),
        theirs: flat(theirs),
    };
    assert(lines.skip(t + 1) =~= rest);
    lemma_parsed_skip(lines, t + 1, draft + flat(ours), blocks.push(block));
}

proof fn lemma_marked_at(lines: Seq<Seq<char>>, mark: Seq<char>, from: int, at: int)
    requires
        0 <= from <= at < lines.len(),
        mark.is_prefix_of(lines[at]),
        forall|i: int| from <= i < at ==> !mark.is_prefix_of(#[trigger] lines[i]),
    ensures
        marked_line(lines, mark, from) == at,
    decreases at - from,
{
    if from < at {
        lemma_marked_at(lines, mark, from + 1, at);
    }
}

proof fn lemma_marked_skip(lines: Seq<Seq<char>>, mark: Seq<char>, off: int, from: int)
    requires
        0 <= off <= lines.len(),
        0 <= from,
    ensures
        marked_line(lines, mark, off + from) == off + marked_line(lines.skip(off), mark, from),
    decreases lines.len() - off - from,
{
    if off + from < lines.len() {
        assert(lines.skip(off)[from] == lines[off + from]);
        lemma_marked_skip(lines, mark, off, from + 1);
    }
}

/// Reading from line `off` on depends only on the lines from there on.
proof fn lemma_parsed_skip(
    lines: Seq<Seq<char>>,
    off: int,
    draft: Seq<char>,
    blocks: Seq<BlockText>,
)
    requires
        0 <= off <= lines.len(),
    ensures
        parsed(lines, off, draft, blocks) == parsed(lines.skip(off), 0, draft, blocks),
{
    lemma_parsed_skip_from(lines, off, 0, draft, blocks);
}

proof fn lemma_parsed_skip_from(
    lines: Seq<Seq<char>>,
    off: int,
    at: int,
    draft: Seq<char>,
    blocks: Seq<BlockText>,
)
    requires
        0 <= off <= lines.len(),
        0 <= at,
    ensures
        parsed(lines, off + at, draft, blocks) == parsed(lines.skip(off), at, draft, blocks),
    decreases lines.len() - off - at,
{
    let rest = lines.skip(off);
    if off + at >= lines.len() {
    } else {
        assert(rest[at] == lines[off + at]);
        if !ours_mark().is_prefix_of(rest[at]) {
            lemma_parsed_skip_from(lines, off, at + 1, draft + rest[at], blocks);
        } else {
            lemma_marked_skip(lines, base_mark(), off, at + 1);
            let a = marked_line(rest, base_mark(), at + 1);
            lemma_marked_line(rest, base_mark(), at + 1);
            lemma_marked_skip(lines, middle_mark(), off, a + 1);
            let b = marked_line(rest, middle_mark(), a + 1);
            if a < rest.len() {
                lemma_marked_line(rest, middle_mark(), a + 1);
                lemma_marked_skip(lines, theirs_mark(), off, b + 1);
                let t = marked_line(rest, theirs_mark(), b + 1);
                if b < rest.len() {
                    lemma_marked_line(rest, theirs_mark(), b + 1);
                    if t < rest.len() {
                        assert(lines.subrange(off + at + 1, off + a) =~= rest.subrange(at + 1, a));
                        assert(lines.subrange(off + a + 1, off + b) =~= rest.subrange(a + 1, b));
                        assert(lines.subrange(off + b + 1, off + t) =~= rest.subrange(b + 1, t));
                        let block = BlockText {
                            start: byte_len(draft),
                            ours: flat(rest.subrange(at + 1, a)),
                            base: flat(rest.subrange(a + 1, b)),
                            theirs: flat(rest.subrange(b + 1, t)),
                        };
                        lemma_parsed_skip_from(
                            lines,
                            off,
                            t + 1,
                            draft + block.ours,
                            blocks.push(block),
                        );
                    }
                }
            }
        }
    }
}

/// A line that opens no conflict goes into the draft as it is, whatever was read before it.
pub proof fn lemma_plain_line_is_kept(
    line: Seq<char>,
    rest: Seq<Seq<char>>,
    draft: Seq<char>,
    blocks: Seq<BlockText>,
)
    requires
        !"<<<<<<< OURS"@.is_prefix_of(line),
    ensures
        parsed(seq![line] + rest, 0, draft, blocks) == parsed(rest, 0, draft + line, blocks),
{
    let lines = seq![line] + rest;
    assert(lines[0] == line);
    assert(lines.skip(1) =~= rest);
    lemma_parsed_skip(lines, 1, draft + line, blocks);
}

/// A conflict that ends too early is not read: what is missing is told.
pub proof fn lemma_unfinished_conflict_is_refused(
    opening: Seq<char>,
    ours: Seq<Seq<char>>,
    bar: Seq<char>,
    base: Seq<Seq<char>>,
    middle: Seq<char>,
    theirs: Seq<Seq<char>>,
    draft: Seq<char>,
    blocks: Seq<BlockText>,
)
    requires
        "<<<<<<< OURS"@.is_prefix_of(opening),
        "||||||| BASE"@.is_prefix_of(bar),
        "======="@.is_prefix_of(middle),
        forall|i: int| 0 <= i < ours.len() ==> !"||||||| BASE"@.is_prefix_of(#[trigger] ours[i]),
        forall|i: int| 0 <= i < base.len() ==> !"======="@.is_prefix_of(#[trigger] base[i]),
        forall|i: int|
            0 <= i < theirs.len() ==> !">>>>>>> THEIRS"@.is_prefix_of(#[trigger] theirs[i]),
    ensures
        parsed(seq![opening] + ours, 0, draft, blocks) == Err::<
            (Seq<char>, Seq<BlockText>),
            Diff3Fault,
        >(Diff3Fault::NoBase),
        parsed(seq![opening] + ours + seq![bar] + base, 0, draft, blocks) == Err::<
            (Seq<char>, Seq<BlockText>),
            Diff3Fault,
        >(Diff3Fault::NoMiddle),
        parsed(
            seq![opening] + ours + seq![bar] + base + seq![middle] + theirs,
            0,
            draft,
            blocks,
        ) == Err::<(Seq<char>, Seq<BlockText>), Diff3Fault>(Diff3Fault::NoEnd),
{
    let first = seq![opening] + ours;
    lemma_marked_line(first, base_mark(), 1);
    assert(first[0] == opening);
    assert forall|i: int| 1 <= i < first.len() implies !base_mark().is_prefix_of(
        #[trigger] first[i],
    ) by {
        assert(first[i] == ours[i - 1]);
    }
    let a = 1 + ours.len() as int;
    let second = seq![opening] + ours + seq![bar] + base;
    assert(second[0] == opening);
    assert(second[a] == bar);
    assert forall|i: int| 1 <= i < a implies !base_mark().is_prefix_of(#[trigger] second[i]) by {
        assert(second[i] == ours[i - 1]);
    }
    lemma_marked_at(second, base_mark(), 1, a);
    assert forall|i: int| a < i < second.len() implies !middle_mark().is_prefix_of(
        #[trigger] second[i],
    ) by {
        assert(second[i] == base[i - a - 1]);
    }
    lemma_marked_line(second, middle_mark(), a + 1);
    let b = a + 1 + base.len();
    let third = seq![opening] + ours + seq![bar] + base + seq![middle] + theirs;
    assert(third[0] == opening);
    assert(third[a] == bar);
    assert(third[b] == middle);
    assert forall|i: int| 1 <= i < a implies !base_mark().is_prefix_of(#[trigger] third[i]) by {
        assert(third[i] == ours[i - 1]);
    }
    lemma_marked_at(third, base_mark(), 1, a);
    assert forall|i: int| a < i < b implies !middle_mark().is_prefix_of(#[trigger] third[i]) by {
        assert(third[i] == base[i - a - 1]);
    }
    lemma_marked_at(third, middle_mark(), a + 1, b);
    assert forall|i: int| b < i < third.len() implies !theirs_mark().is_prefix_of(
        #[trigger] third[i],
    ) by {
        assert(third[i] == theirs[i - b - 1]);
    }
    lemma_marked_line(third, theirs_mark(), b + 1);
}

// ---------------------------------------------------------------------------
// Whole files
// ---------------------------------------------------------------------------
/// A piece of the text of a merge: a line of its own, or a conflict with its four markers.
pub enum Piece {
    Line(Seq<char>),
    Conflict {
        opening: Seq<char>,
        ours: Seq<Seq<char>>,
        bar: Seq<char>,
        base: Seq<Seq<char>>,
        middle: Seq<char>,
        theirs: Seq<Seq<char>>,
        closing: Seq<char>,
    },
}

impl Piece {
    /// The lines of the piece.
    pub open spec fn lines(self) -> Seq<Seq<char>> {
        match self {
            Piece::Line(line) => seq![line],
            Piece::Conflict { opening, ours, bar, base, middle, theirs, closing } => seq![opening]
                + ours + seq![bar] + base + seq![middle] + theirs + seq![closing],
        }
    }

    /// Whether the markers of the piece stand where they should, and nowhere else.
    pub open spec fn is_written(self) -> bool {
        match self {
            Piece::Line(line) => !"<<<<<<< OURS"@.is_prefix_of(line),
            Piece::Conflict { opening, ours, bar, base, middle, theirs, closing } => {
                &&& "<<<<<<< OURS"@.is_prefix_of(opening)
                &&& "||||||| BASE"@.is_prefix_of(bar)
                &&& "======="@.is_prefix_of(middle)
                &&& ">>>>>>> THEIRS"@.is_prefix_of(closing)
                &&& forall|i: int|
                    0 <= i < ours.len() ==> !"||||||| BASE"@.is_prefix_of(#[trigger] ours[i])
                &&& forall|i: int|
                    0 <= i < base.len() ==> !"======="@.is_prefix_of(#[trigger] base[i])
                &&& forall|i: int|
                    0 <= i < theirs.len() ==> !">>>>>>> THEIRS"@.is_prefix_of(#[trigger] theirs[i])
            },
        }
    }

    /// What the file holds in place of the piece if side "ours" is taken.
    pub open spec fn with_ours(self) -> Seq<char> {
        match self {
            Piece::Line(line) => line,
            Piece::Conflict { ours, .. } => flat(ours),
        }
    }
}

pub open spec fn lines_of_pieces(pieces: Seq<Piece>) -> Seq<Seq<char>>
    decreases pieces.len(),
{
    if pieces.len() == 0 {
        Seq::empty()
    } else {
        pieces[0].lines() + lines_of_pieces(pieces.drop_first())
    }
}

/// The file with side "ours" of every conflict, and all else as it is.
pub open spec fn with_ours(pieces: Seq<Piece>) -> Seq<char>
    decreases pieces.len(),
{
    if pieces.len() == 0 {
        Seq::empty()
    } else {
        pieces[0].with_ours() + with_ours(pieces.drop_first())
    }
}

/// The conflicts of a file, where `before` stands in the draft before its pieces.
pub open spec fn conflicts_of(pieces: Seq<Piece>, before: Seq<char>) -> Seq<BlockText>
    decreases pieces.len(),
{
    if pieces.len() == 0 {
        Seq::empty()
    } else {
        let rest = conflicts_of(pieces.drop_first(), before + pieces[0].with_ours());
        match pieces[0] {
            Piece::Line(_) => rest,
            Piece::Conflict { ours, base, theirs, .. } => seq![
                BlockText {
                    start: byte_len(before),
                    ours: flat(ours),
                    base: flat(base),
                    theirs: flat(theirs),
                },
            ] + rest,
        }
    }
}

/// A file is read piece by piece: the draft is the file with side "ours" in place of each
/// conflict and nothing else left out, and the blocks are its conflicts in order.
pub proof fn lemma_file_is_read_by_pieces(
    pieces: Seq<Piece>,
    draft: Seq<char>,
    blocks: Seq<BlockText>,
)
    requires
        forall|i: int| 0 <= i < pieces.len() ==> (#[trigger] pieces[i]).is_written(),
    ensures
        parsed(lines_of_pieces(pieces), 0, draft, blocks) == Ok::<
            (Seq<char>, Seq<BlockText>),
            Diff3Fault,
        >((draft + with_ours(pieces), blocks + conflicts_of(pieces, draft))),
    decreases pieces.len(),
{
    if pieces.len() == 0 {
        assert(draft + with_ours(pieces) =~= draft);
        assert(blocks + conflicts_of(pieces, draft) =~= blocks);
    } else {
        let rest = pieces.drop_first();
        let tail = lines_of_pieces(rest);
        assert(pieces[0].is_written());
        assert forall|i: int| 0 <= i < rest.len() implies (#[trigger] rest[i]).is_written() by {
            assert(rest[i] == pieces[i + 1]);
        }
        let grown = draft + pieces[0].with_ours();
        match pieces[0] {
            Piece::Line(line) => {
                lemma_plain_line_is_kept(line, tail, draft, blocks);
                lemma_file_is_read_by_pieces(rest, grown, blocks);
            },
            Piece::Conflict { opening, ours, bar, base, middle, theirs, closing } => {
                lemma_written_conflict_is_read_back(
                    opening,
                    ours,
                    bar,
                    base,
                    middle,
                    theirs,
                    closing,
                    tail,
                    draft,
                    blocks,
                );
                let block = BlockText {
                    start: byte_len(draft),
                    ours: flat(ours),
                    base: flat(base),
                    theirs: flat(theirs),
                };
                lemma_file_is_read_by_pieces(rest, grown, blocks.push(block));
                assert(blocks.push(block) + conflicts_of(rest, grown) =~= blocks + conflicts_of(
                    pieces,
                    draft,
                ));
            },
        }
        assert(grown + with_ours(rest) =~= draft + with_ours(pieces));
    }
}

/// Lines that are put together are cut into the same lines again.
pub proof fn lemma_lines_are_cut_again(lines: Seq<Seq<char>>)
    requires
        forall|i: int|
            0 <= i < lines.len() ==> is_line(#[trigger] lines[i], i == lines.len() - 1),
    ensures
        lines_of(flat(lines)) == lines,
    decreases lines.len(),
{
    if lines.len() > 0 {
        let rest = lines.drop_first();
        let s = flat(lines);
        assert(lines =~= seq![lines[0]] + rest);
        lemma_flat_concat(seq![lines[0]], rest);
        lemma_flat_one(lines[0]);
        assert forall|i: int| 0 <= i < rest.len() implies is_line(
            #[trigger] rest[i],
            i == rest.len() - 1,
        ) by {
            assert(rest[i] == lines[i + 1]);
        }
        lemma_lines_are_cut_again(rest);
        let n = lines[0].len() as int;
        lemma_line_end(s, 0);
        assert(is_line(lines[0], 0 == lines.len() - 1));
        assert(s.take(n) =~= lines[0]);
        assert(s.skip(n) =~= flat(rest));
        let e = line_end(s, 0);
        assert(e == n) by {
            if e < n {
                assert(s[e - 1] == lines[0][e - 1]);
            }
            if e > n {
                assert(rest.len() > 0) by {
                    if rest.len() == 0 {
                        assert(flat(rest).len() == 0);
                    }
                }
                assert(lines[0].last() == '\n');
                assert(s[n - 1] == '\n');
            }
        }
        assert(lines_of(s) =~= lines);
    }
}

/// The text of a merge is read as what it was written from: of every conflict, side "ours" goes
/// into the draft and all three sides into a block that is not yet resolved; every other line
/// goes into the draft as it is.
pub proof fn lemma_merge_text_is_read(
    pieces: Seq<Piece>,
    draft: Seq<char>,
    blocks: Seq<ConflictBlock>,
)
    requires
        forall|i: int| 0 <= i < pieces.len() ==> (#[trigger] pieces[i]).is_written(),
        ({
            let lines = lines_of_pieces(pieces);
            forall|i: int|
                0 <= i < lines.len() ==> is_line(#[trigger] lines[i], i == lines.len() - 1)
        }),
        parsed_text(flat(lines_of_pieces(pieces))) matches Ok((d, texts)) ==> d == draft
            && are_fresh_blocks(blocks, texts),
    ensures
        draft == with_ours(pieces),
        blocks.len() == conflicts_of(pieces, Seq::empty()).len(),
        forall|i: int|
            0 <= i < blocks.len() ==> {
                let text = conflicts_of(pieces, Seq::empty())[i];
                let block = #[trigger] blocks[i];
                &&& block.base matches Some(base) && base@ == text.base
                &&& block.ours@ == text.ours
                &&& block.theirs@ == text.theirs
                &&& block.start == text.start
                &&& block.end == text.start + byte_len(text.ours)
                &&& block.resolution is None
                &&& !block.has_manual_edits
            },
{
    lemma_lines_are_cut_again(lines_of_pieces(pieces));
    lemma_file_is_read_by_pieces(pieces, Seq::empty(), Seq::empty());
    assert(Seq::<char>::empty() + with_ours(pieces) =~= with_ours(pieces));
    let texts = conflicts_of(pieces, Seq::empty());
    assert(Seq::<BlockText>::empty() + texts =~= texts);
    assert forall|i: int| 0 <= i < blocks.len() implies {
        let text = conflicts_of(pieces, Seq::empty())[i];
        let block = #[trigger] blocks[i];
        &&& block.base matches Some(base) && base@ == text.base
        &&& block.ours@ == text.ours
        &&& block.theirs@ == text.theirs
        &&& block.start == text.start
        &&& block.end == text.start + byte_len(text.ours)
        &&& block.resolution is None
        &&& !block.has_manual_edits
    } by {
        assert(is_fresh_block(blocks[i], texts[i]));
    }
}

/// A block that was just read holds the three versions that it was read with, marks our version in the
/// draft, and neither has a side been taken for it nor has it been changed by hand.
pub proof fn lemma_fresh_block(block: ConflictBlock, text: BlockText)
    requires
        is_fresh_block(block, text),
    ensures
        block.base is Some && block.base->0@ == text.base,
        block.ours@ == text.ours,
        block.theirs@ == text.theirs,
        block.start == text.start,
        block.end - block.start == byte_len(text.ours),
        block.resolution is None,
        !block.has_manual_edits,
{
}

/// What is wrong with a conflict names the mark that is missing.
pub proof fn lemma_faults_name_their_mark(fault: Diff3Fault)
    ensures
        match fault {
            Diff3Fault::NoBase => contains_text(fault_text(fault), "BASE"@),
            Diff3Fault::NoMiddle => contains_text(fault_text(fault), "中间"@),
            Diff3Fault::NoEnd => contains_text(fault_text(fault), "THEIRS"@),
        },
{
    if fault is NoBase {
        reveal_strlit("冲突文本缺少 BASE 分隔标记");
        reveal_strlit("BASE");
        assert("冲突文本缺少 BASE 分隔标记"@.subrange(7, 7int + "BASE"@.len()) =~= "BASE"@);
    } else if fault is NoMiddle {
        reveal_strlit("冲突文本缺少中间分隔标记");
        reveal_strlit("中间");
        assert("冲突文本缺少中间分隔标记"@.subrange(6, 6int + "中间"@.len()) =~= "中间"@);
    } else {
        reveal_strlit("冲突文本缺少 THEIRS 结束标记");
        reveal_strlit("THEIRS");
        assert("冲突文本缺少 THEIRS 结束标记"@.subrange(7, 7int + "THEIRS"@.len()) =~= "THEIRS"@);
    }
}

} // verus!
