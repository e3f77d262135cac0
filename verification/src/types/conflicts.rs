//! A conflicted text file: the draft of its resolution and the blocks in it.

use vstd::prelude::*;
use vstd::string::StringExecFns;

use crate::text::{bytes_of, byte_len, char_len, is_boundary, on_boundary, replace_range, split_at, split_index, str_len, to_chars};
use crate::text::{lemma_bytes_concat, lemma_bytes_push, lemma_byte_len_bound, lemma_prefix_boundary, lemma_split, lemma_char_bytes, lemma_prefix_len_injective, lemma_bytes_injective, lemma_boundary_left, lemma_boundary_right};

verus! {

#[derive(Clone, Copy, Debug, PartialEq, Eq, Structural)]
pub enum ConflictResolutionSide {
    Ours,
    Theirs,
}

#[derive(Clone, Copy, Debug, PartialEq, Eq, Structural)]
pub enum ConflictBlockResolution {
    Ours,
    Theirs,
    BothOursFirst,
    BothTheirsFirst,
}

impl ConflictBlockResolution {
    /// The text that a block holds once it is resolved this way.
    pub open spec fn rendered(self, ours: Seq<char>, theirs: Seq<char>) -> Seq<char> {
        match self {
            ConflictBlockResolution::Ours => ours,
            ConflictBlockResolution::Theirs => theirs,
            ConflictBlockResolution::BothOursFirst => ours + theirs,
            ConflictBlockResolution::BothTheirsFirst => theirs + ours,
        }
    }

    pub fn render(self, ours: &str, theirs: &str) -> (text: String)
        ensures
            text@ == self.rendered(ours@, theirs@),
    {
        match self {
            ConflictBlockResolution::Ours => String::from_str(ours),
            ConflictBlockResolution::Theirs => String::from_str(theirs),
            ConflictBlockResolution::BothOursFirst => {
                let mut text = String::from_str(ours);
                text.append(theirs);
                text
            },
            ConflictBlockResolution::BothTheirsFirst => {
                let mut text = String::from_str(theirs);
                text.append(ours);
                text
            },
        }
    }
}

#[derive(Clone, Copy, Debug, PartialEq, Eq, Structural)]
pub enum ConflictFileKind {
    Text,
    Binary,
    Unsupported,
}

#[derive(Clone, Copy, Debug, PartialEq, Eq, Structural)]
pub enum ConflictDraftStatus {
    Clean,
    Dirty,
    Applied,
}

/// One conflict of a file. `start` and `end` are byte offsets into the draft.
#[derive(Clone, Debug, PartialEq, Eq)]
pub struct ConflictBlock {
    pub base: Option<String>,
    pub ours: String,
    pub theirs: String,
    pub start: usize,
    pub end: usize,
    pub resolution: Option<ConflictBlockResolution>,
    pub has_manual_edits: bool,
}

impl ConflictBlock {
    /// Whether the block marks a run of whole characters of `draft`.
    pub open spec fn marks_text_of(self, draft: Seq<char>) -> bool {
        &&& self.start <= self.end
        &&& on_boundary(draft, self.start as int)
        &&& on_boundary(draft, self.end as int)
    }

    /// The bytes that the block marks in `draft`.
    pub open spec fn marked(self, draft: Seq<char>) -> Seq<u8> {
        bytes_of(draft).subrange(self.start as int, self.end as int)
    }

    /// Whether `self` and `other` come from the same conflict.
    pub open spec fn same_sides(self, other: ConflictBlock) -> bool {
        self.base == other.base && self.ours == other.ours && self.theirs == other.theirs
    }

    pub fn resolved_text(&self, resolution: ConflictBlockResolution) -> (text: String)
        ensures
            text@ == resolution.rendered(self.ours@, self.theirs@),
    {
        resolution.render(self.ours.as_str(), self.theirs.as_str())
    }
}

#[derive(Clone, Debug, PartialEq, Eq)]
pub struct ConflictFileView {
    pub path: String,
    pub kind: ConflictFileKind,
    pub draft: String,
    pub blocks: Vec<ConflictBlock>,
    pub draft_status: ConflictDraftStatus,
    pub fallback_reason: Option<String>,
}

// ---------------------------------------------------------------------------
// Offsets
// ---------------------------------------------------------------------------
/// `value + delta`, held within the range of an offset.
pub open spec fn shifted(value: int, delta: int) -> int {
    if value + delta < 0 {
        0
    } else if value + delta > usize::MAX {
        usize::MAX as int
    } else {
        value + delta
    }
}

pub open spec fn max_int(a: int, b: int) -> int {
    if a < b {
        b
    } else {
        a
    }
}

pub fn add_signed(value: usize, delta: i128) -> (r: usize)
    requires
        -(usize::MAX as int) <= delta <= usize::MAX,
    ensures
        r == shifted(value as int, delta as int),
{
    if delta >= 0 {
        let grown: usize = delta as usize;
        if value > usize::MAX - grown {
            usize::MAX
        } else {
            value + grown
        }
    } else {
        let shrunk: usize = (0 - delta) as usize;
        if value < shrunk {
            0
        } else {
            value - shrunk
        }
    }
}

/// The block that `before` becomes when everything before it grows by `delta` bytes.
pub open spec fn is_shifted(before: ConflictBlock, after: ConflictBlock, delta: int) -> bool {
    &&& after.same_sides(before)
    &&& after.resolution == before.resolution
    &&& after.has_manual_edits == before.has_manual_edits
    &&& after.start == shifted(before.start as int, delta)
    &&& after.end == max_int(shifted(before.end as int, delta), after.start as int)
}

pub fn shift_range(block: &mut ConflictBlock, delta: i128)
    requires
        -(usize::MAX as int) <= delta <= usize::MAX,
    ensures
        is_shifted(*old(block), *final(block), delta as int),
{
    block.start = add_signed(block.start, delta);
    let end: usize = add_signed(block.end, delta);
    block.end = if end < block.start { block.start } else { end };
}

// ---------------------------------------------------------------------------
// What two texts share
// ---------------------------------------------------------------------------
/// The first position from `k` on at which `a` and `b` differ or one of them ends.
pub open spec fn common_from(a: Seq<char>, b: Seq<char>, k: int) -> int
    decreases a.len() - k,
{
    if 0 <= k < a.len() && k < b.len() && a[k] == b[k] {
        common_from(a, b, k + 1)
    } else {
        k
    }
}

/// Number of leading characters that `a` and `b` share.
pub open spec fn common_prefix(a: Seq<char>, b: Seq<char>) -> int {
    common_from(a, b, 0)
}

/// Number of trailing characters that `a` and `b` share.
pub open spec fn common_suffix(a: Seq<char>, b: Seq<char>) -> int {
    common_from(a.reverse(), b.reverse(), 0)
}

pub proof fn lemma_common_from(a: Seq<char>, b: Seq<char>, k: int)
    requires
        0 <= k <= a.len(),
        k <= b.len(),
        forall|i: int| 0 <= i < k ==> a[i] == b[i],
    ensures
        k <= common_from(a, b, k) <= a.len(),
        common_from(a, b, k) <= b.len(),
        forall|i: int| 0 <= i < common_from(a, b, k) ==> a[i] == b[i],
        common_from(a, b, k) < a.len() && common_from(a, b, k) < b.len() ==> a[common_from(a, b, k)]
            != b[common_from(a, b, k)],
    decreases a.len() - k,
{
    if k < a.len() && k < b.len() && a[k] == b[k] {
        lemma_common_from(a, b, k + 1);
    }
}

pub proof fn lemma_common_prefix(a: Seq<char>, b: Seq<char>)
    ensures
        0 <= common_prefix(a, b) <= a.len(),
        common_prefix(a, b) <= b.len(),
        a.take(common_prefix(a, b)) == b.take(common_prefix(a, b)),
{
    lemma_common_from(a, b, 0);
    assert(a.take(common_prefix(a, b)) =~= b.take(common_prefix(a, b)));
}

pub proof fn lemma_common_suffix(a: Seq<char>, b: Seq<char>)
    ensures
        0 <= common_suffix(a, b) <= a.len(),
        common_suffix(a, b) <= b.len(),
        a.skip(a.len() - common_suffix(a, b)) == b.skip(b.len() - common_suffix(a, b)),
{
    let ra = a.reverse();
    let rb = b.reverse();
    lemma_common_from(ra, rb, 0);
    let m = common_suffix(a, b);
    let ta = a.skip(a.len() - m);
    let tb = b.skip(b.len() - m);
    assert forall|i: int| 0 <= i < m implies #[trigger] ta[i] == tb[i] by {
        assert(ra[m - 1 - i] == rb[m - 1 - i]);
    }
    assert(ta =~= tb);
}

/// Byte length of what `left` and `right` start with.
pub fn shared_prefix_len(left: &str, right: &str) -> (n: usize)
    ensures
        n == byte_len(left@.take(common_prefix(left@, right@))),
{
    let _len: usize = str_len(left);
    let left: Vec<char> = to_chars(left);
    let right: Vec<char> = to_chars(right);
    let mut k: usize = 0;
    let mut prefix: usize = 0;
    proof {
        lemma_byte_len_bound(left@.take(0));
    }
    while k < left.len() && k < right.len() && left[k] == right[k]
        invariant
            k <= left@.len(),
            k <= right@.len(),
            byte_len(left@) <= usize::MAX,
            prefix == byte_len(left@.take(k as int)),
            common_from(left@, right@, 0) == common_from(left@, right@, k as int),
        decreases left@.len() - k,
    {
        proof {
            assert(left@.take(k as int + 1) =~= left@.take(k as int).push(left@[k as int]));
            lemma_bytes_push(left@.take(k as int), left@[k as int]);
            assert(left@ =~= left@.take(k as int + 1) + left@.skip(k as int + 1));
            lemma_bytes_concat(left@.take(k as int + 1), left@.skip(k as int + 1));
        }
        prefix = prefix + char_len(left[k]);
        k = k + 1;
    }
    prefix
}

/// Byte length of what `left` and `right` end with.
pub fn shared_suffix_len(left: &str, right: &str) -> (n: usize)
    ensures
        n == byte_len(left@.skip(left@.len() - common_suffix(left@, right@))),
{
    let _len: usize = str_len(left);
    let left: Vec<char> = to_chars(left);
    let right: Vec<char> = to_chars(right);
    let ghost ra = left@.reverse();
    let ghost rb = right@.reverse();
    let mut k: usize = 0;
    let mut suffix: usize = 0;
    proof {
        lemma_byte_len_bound(left@.skip(left@.len() as int));
    }
    while k < left.len() && k < right.len() && left[left.len() - 1 - k] == right[right.len() - 1
        - k]
        invariant
            k <= left@.len(),
            k <= right@.len(),
            ra == left@.reverse(),
            rb == right@.reverse(),
            byte_len(left@) <= usize::MAX,
            suffix == byte_len(left@.skip(left@.len() - k)),
            common_from(ra, rb, 0) == common_from(ra, rb, k as int),
        decreases left@.len() - k,
    {
        proof {
            let c = left@[left@.len() - 1 - k];
            assert(ra[k as int] == c);
            assert(rb[k as int] == right@[right@.len() - 1 - k]);
            let rest = left@.skip(left@.len() - k);
            assert(left@.skip(left@.len() - k - 1) =~= seq![c] + rest);
            lemma_bytes_concat(seq![c], rest);
            lemma_char_bytes(c);
            assert(left@ =~= left@.take(left@.len() - k - 1) + left@.skip(left@.len() - k - 1));
            lemma_bytes_concat(left@.take(left@.len() - k - 1), left@.skip(left@.len() - k - 1));
        }
        suffix = suffix + char_len(left[left.len() - 1 - k]);
        k = k + 1;
    }
    proof {
        assert(k < left@.len() ==> ra[k as int] == left@[left@.len() - 1 - k]);
        assert(k < right@.len() ==> rb[k as int] == right@[right@.len() - 1 - k]);
    }
    suffix
}

// ---------------------------------------------------------------------------
// The draft and its blocks
// ---------------------------------------------------------------------------
/// How one text became another: both agree on the first `prefix` bytes and on all
/// bytes from `old_end` (in the old text) or `new_end` (in the new text) on.
pub struct DraftEdit {
    pub prefix: int,
    pub old_end: int,
    pub new_end: int,
}

pub open spec fn draft_edit(before: Seq<char>, after: Seq<char>) -> DraftEdit {
    let k = common_prefix(before, after);
    let m = common_suffix(before.skip(k), after.skip(k));
    DraftEdit {
        prefix: byte_len(before.take(k)) as int,
        old_end: byte_len(before.take(before.len() - m)) as int,
        new_end: byte_len(after.take(after.len() - m)) as int,
    }
}

/// The parts that an edit leaves alone hold the same bytes before and after it.
pub proof fn lemma_draft_edit(before: Seq<char>, after: Seq<char>)
    ensures
        ({
            let e = draft_edit(before, after);
            let delta = e.new_end - e.old_end;
            &&& 0 <= e.prefix <= e.old_end <= byte_len(before)
            &&& e.prefix <= e.new_end <= byte_len(after)
            &&& byte_len(after) == byte_len(before) + delta
            &&& bytes_of(before).subrange(0, e.prefix) == bytes_of(after).subrange(0, e.prefix)
            &&& bytes_of(before).subrange(e.old_end, byte_len(before) as int) == bytes_of(
                after,
            ).subrange(e.new_end, byte_len(after) as int)
            &&& on_boundary(before, e.prefix)
            &&& on_boundary(after, e.prefix)
            &&& on_boundary(before, e.old_end)
            &&& on_boundary(after, e.new_end)
        }),
{
    let k = common_prefix(before, after);
    lemma_common_prefix(before, after);
    let m = common_suffix(before.skip(k), after.skip(k));
    lemma_common_suffix(before.skip(k), after.skip(k));
    let i = before.len() - m;
    let j = after.len() - m;
    assert(before.skip(i) =~= before.skip(k).skip(before.skip(k).len() - m));
    assert(after.skip(j) =~= after.skip(k).skip(after.skip(k).len() - m));
    assert(before.take(i) =~= before.take(k) + before.subrange(k, i));
    assert(after.take(j) =~= after.take(k) + after.subrange(k, j));
    lemma_bytes_concat(before.take(k), before.subrange(k, i));
    lemma_bytes_concat(after.take(k), after.subrange(k, j));
    assert(before =~= before.take(i) + before.skip(i));
    assert(after =~= after.take(j) + after.skip(j));
    assert(before =~= before.take(k) + before.skip(k));
    assert(after =~= after.take(k) + after.skip(k));
    lemma_prefix_boundary(before.take(k), before.skip(k));
    lemma_prefix_boundary(after.take(k), after.skip(k));
    lemma_prefix_boundary(before.take(i), before.skip(i));
    lemma_prefix_boundary(after.take(j), after.skip(j));
    lemma_bytes_concat(before.take(i), before.skip(i));
    lemma_bytes_concat(after.take(j), after.skip(j));
}

/// Whether `after` is what `before` becomes when the draft is edited by `e`.
pub open spec fn is_edited(before: ConflictBlock, after: ConflictBlock, e: DraftEdit) -> bool {
    let delta = e.new_end - e.old_end;
    if before.end <= e.prefix {
        after == before
    } else if before.start >= e.old_end {
        is_shifted(before, after, delta)
    } else {
        &&& after.same_sides(before)
        &&& after.has_manual_edits
        &&& after.resolution is None
        &&& after.start == if before.start > e.prefix {
            e.prefix
        } else {
            before.start as int
        }
        &&& after.end == max_int(shifted(before.end as int, delta), after.start as int)
    }
}

impl ConflictFileView {
    /// Every block marks whole characters of the draft, and blocks come one after the other.
    pub open spec fn wf(self) -> bool {
        &&& forall|i: int|
            0 <= i < self.blocks@.len() ==> (#[trigger] self.blocks@[i]).marks_text_of(self.draft@)
        &&& forall|i: int, j: int|
            0 <= i < j < self.blocks@.len() ==> (#[trigger] self.blocks@[i]).end <= (
            #[trigger] self.blocks@[j]).start
    }

    /// Whether `self` and `other` agree on everything but the draft, its status and the blocks.
    pub open spec fn same_file(self, other: ConflictFileView) -> bool {
        &&& self.path == other.path
        &&& self.kind == other.kind
        &&& self.fallback_reason == other.fallback_reason
    }

    pub fn unresolved_block_count(&self) -> (n: usize)
        ensures
            n == self.blocks@.filter(|b: ConflictBlock| b.resolution is None).len(),
    {
        let ghost open = |b: ConflictBlock| b.resolution is None;
        let mut n: usize = 0;
        let mut i: usize = 0;
        assert(self.blocks@.take(0).filter(open) =~= Seq::<ConflictBlock>::empty());
        while i < self.blocks.len()
            invariant
                i <= self.blocks@.len(),
                n <= i,
                open == (|b: ConflictBlock| b.resolution is None),
                n == self.blocks@.take(i as int).filter(open).len(),
            decreases self.blocks@.len() - i,
        {
            proof {
                let head = self.blocks@.take(i as int);
                assert(self.blocks@.take(i as int + 1) =~= head.push(self.blocks@[i as int]));
                head.lemma_filter_push(self.blocks@[i as int], open);
            }
            if self.blocks[i].resolution.is_none() {
                n = n + 1;
            }
            i = i + 1;
        }
        assert(self.blocks@.take(i as int) =~= self.blocks@);
        n
    }

    pub fn has_manual_blocks(&self) -> (b: bool)
        ensures
            b == exists|i: int|
                0 <= i < self.blocks@.len() && (#[trigger] self.blocks@[i]).has_manual_edits,
    {
        let mut i: usize = 0;
        while i < self.blocks.len()
            invariant
                i <= self.blocks@.len(),
                forall|j: int| 0 <= j < i ==> !(#[trigger] self.blocks@[j]).has_manual_edits,
            decreases self.blocks@.len() - i,
        {
            if self.blocks[i].has_manual_edits {
                return true;
            }
            i = i + 1;
        }
        false
    }

    /// Whether there is a block `block_index`, and it marks whole characters of the draft.
    pub fn marks_text(&self, block_index: usize) -> (r: bool)
        ensures
            r == (block_index < self.blocks@.len()
                && self.blocks@[block_index as int].marks_text_of(self.draft@)),
    {
        if block_index >= self.blocks.len() {
            return false;
        }
        let block = &self.blocks[block_index];
        block.start <= block.end && is_boundary(self.draft.as_str(), block.start)
            && is_boundary(self.draft.as_str(), block.end)
    }

    pub fn mark_applied(&mut self)
        ensures
            final(self).draft_status == ConflictDraftStatus::Applied,
            final(self).draft == old(self).draft,
            final(self).blocks == old(self).blocks,
            final(self).same_file(*old(self)),
    {
        self.draft_status = ConflictDraftStatus::Applied;
    }

    pub fn mark_dirty(&mut self)
        ensures
            final(self).draft_status == ConflictDraftStatus::Dirty,
            final(self).draft == old(self).draft,
            final(self).blocks == old(self).blocks,
            final(self).same_file(*old(self)),
    {
        self.draft_status = ConflictDraftStatus::Dirty;
    }

    /// Puts the rendering of `resolution` in place of what block `block_index` marks.
    pub fn apply_block_resolution(
        &mut self,
        block_index: usize,
        resolution: ConflictBlockResolution,
    )
        requires
            block_index < old(self).blocks@.len() ==> old(self).blocks@[block_index as int].marks_text_of(
                old(self).draft@,
            ),
        ensures
            block_index >= old(self).blocks@.len() ==> *final(self) == *old(self),
            block_index < old(self).blocks@.len() ==> replaced(
                *old(self),
                *final(self),
                block_index as int,
                old(self).resolved(block_index as int, resolution),
                Some(resolution),
                false,
            ),
            old(self).wf() ==> final(self).wf(),
    {
        if block_index >= self.blocks.len() {
            return;
        }
        let replacement = self.blocks[block_index].resolved_text(resolution);
        self.replace_block_text(block_index, replacement, Some(resolution), false);
    }

    /// The rendering of `resolution` for block `index`.
    pub open spec fn resolved(self, index: int, resolution: ConflictBlockResolution) -> Seq<char> {
        resolution.rendered(self.blocks@[index].ours@, self.blocks@[index].theirs@)
    }

    /// Takes over a draft that was edited by hand and moves the blocks along with the text.
    pub fn set_draft(&mut self, new_draft: String)
        ensures
            old(self).draft@ == new_draft@ ==> *final(self) == *old(self),
            old(self).draft@ != new_draft@ ==> {
                &&& final(self).draft@ == new_draft@
                &&& final(self).draft_status == ConflictDraftStatus::Dirty
                &&& final(self).same_file(*old(self))
                &&& final(self).blocks@.len() == old(self).blocks@.len()
                &&& forall|i: int|
                    0 <= i < old(self).blocks@.len() ==> is_edited(
                        #[trigger] old(self).blocks@[i],
                        final(self).blocks@[i],
                        draft_edit(old(self).draft@, new_draft@),
                    )
            },
    {
        if self.draft == new_draft {
            return;
        }
        let old_len: usize = str_len(self.draft.as_str());
        let new_len: usize = str_len(new_draft.as_str());
        let ghost before = self.draft@;
        let ghost after = new_draft@;
        let ghost k = common_prefix(before, after);
        let ghost m = common_suffix(before.skip(k), after.skip(k));
        let ghost e = draft_edit(before, after);
        let prefix: usize = shared_prefix_len(self.draft.as_str(), new_draft.as_str());
        proof {
            lemma_common_prefix(before, after);
            lemma_draft_edit(before, after);
            lemma_split(before, prefix as int);
            lemma_split(after, prefix as int);
            lemma_prefix_len_injective(before, k, split_index(before, prefix as int));
            lemma_prefix_len_injective(after, k, split_index(after, prefix as int));
        }
        let (_old_head, old_tail) = split_at(self.draft.as_str(), prefix);
        let (_new_head, new_tail) = split_at(new_draft.as_str(), prefix);
        let suffix: usize = shared_suffix_len(old_tail, new_tail);
        proof {
            lemma_common_suffix(before.skip(k), after.skip(k));
            let i = before.len() - m;
            let j = after.len() - m;
            assert(before.skip(i) =~= before.skip(k).skip(before.skip(k).len() - m));
            assert(after.skip(j) =~= after.skip(k).skip(after.skip(k).len() - m));
            assert(before =~= before.take(i) + before.skip(i));
            assert(after =~= after.take(j) + after.skip(j));
            lemma_bytes_concat(before.take(i), before.skip(i));
            lemma_bytes_concat(after.take(j), after.skip(j));
        }
        let old_changed_end: usize = old_len - suffix;
        let new_changed_end: usize = new_len - suffix;
        let delta: i128 = new_changed_end as i128 - old_changed_end as i128;
        let ghost blocks = self.blocks@;
        let mut i: usize = 0;
        while i < self.blocks.len()
            invariant
                i <= self.blocks@.len(),
                self.blocks@.len() == blocks.len(),
                self.same_file(*old(self)),
                blocks == old(self).blocks@,
                prefix == e.prefix,
                old_changed_end == e.old_end,
                new_changed_end == e.new_end,
                delta == e.new_end - e.old_end,
                forall|j: int| i <= j < blocks.len() ==> self.blocks@[j] == #[trigger] blocks[j],
                forall|j: int|
                    0 <= j < i ==> is_edited(#[trigger] blocks[j], self.blocks@[j], e),
            decreases self.blocks@.len() - i,
        {
            if self.blocks[i].end <= prefix {
            } else if self.blocks[i].start >= old_changed_end {
                shift_range(&mut self.blocks[i], delta);
            } else {
                let start: usize = if self.blocks[i].start > prefix {
                    prefix
                } else {
                    self.blocks[i].start
                };
                let end: usize = add_signed(self.blocks[i].end, delta);
                let block = &mut self.blocks[i];
                block.has_manual_edits = true;
                block.start = start;
                block.end = if end < start { start } else { end };
                block.resolution = None;
            }
            i = i + 1;
        }
        self.draft = new_draft;
        self.draft_status = ConflictDraftStatus::Dirty;
    }

    /// Puts `replacement` in place of what block `block_index` marks.
    pub fn replace_block_text(
        &mut self,
        block_index: usize,
        replacement: String,
        resolution: Option<ConflictBlockResolution>,
        manual: bool,
    )
        requires
            block_index < old(self).blocks@.len() ==> old(self).blocks@[block_index as int].marks_text_of(
                old(self).draft@,
            ),
        ensures
            block_index >= old(self).blocks@.len() ==> *final(self) == *old(self),
            block_index < old(self).blocks@.len() ==> replaced(
                *old(self),
                *final(self),
                block_index as int,
                replacement@,
                resolution,
                manual,
            ),
            old(self).wf() ==> final(self).wf(),
    {
        if block_index >= self.blocks.len() {
            return;
        }
        let start: usize = self.blocks[block_index].start;
        let end: usize = self.blocks[block_index].end;
        let inserted: usize = str_len(replacement.as_str());
        let draft: String = replace_range(self.draft.as_str(), start, end, replacement.as_str());
        let new_len: usize = str_len(draft.as_str());
        proof {
            lemma_split(self.draft@, start as int);
            lemma_split(self.draft@, end as int);
        }
        self.draft = draft;
        let delta: i128 = inserted as i128 - (end - start) as i128;
        {
            let current = &mut self.blocks[block_index];
            current.end = start + inserted;
            current.resolution = resolution;
            current.has_manual_edits = manual;
        }
        let ghost blocks = old(self).blocks@;
        let mut i: usize = block_index + 1;
        while i < self.blocks.len()
            invariant
                block_index < i <= self.blocks@.len(),
                self.blocks@.len() == blocks.len(),
                blocks == old(self).blocks@,
                self.same_file(*old(self)),
                self.draft == draft,
                -(usize::MAX as int) <= delta <= usize::MAX,
                self.blocks@[block_index as int].same_sides(blocks[block_index as int]),
                self.blocks@[block_index as int].start == start,
                self.blocks@[block_index as int].end == start + inserted,
                self.blocks@[block_index as int].resolution == resolution,
                self.blocks@[block_index as int].has_manual_edits == manual,
                forall|j: int| 0 <= j < block_index ==> self.blocks@[j] == #[trigger] blocks[j],
                forall|j: int| i <= j < blocks.len() ==> self.blocks@[j] == #[trigger] blocks[j],
                forall|j: int|
                    block_index < j < i ==> is_shifted(
                        #[trigger] blocks[j],
                        self.blocks@[j],
                        delta as int,
                    ),
            decreases self.blocks@.len() - i,
        {
            shift_range(&mut self.blocks[i], delta);
            i = i + 1;
        }
        self.draft_status = ConflictDraftStatus::Dirty;
        proof {
            assert(replaced(
                *old(self),
                *self,
                block_index as int,
                replacement@,
                resolution,
                manual,
            ));
            if old(self).wf() {
                lemma_replaced_wf(
                    *old(self),
                    *self,
                    block_index as int,
                    replacement@,
                    resolution,
                    manual,
                );
            }
        }
    }
}

/// Whether `after` is `before` with `text` in place of what block `at` marked, the later
/// blocks moved along, and block `at` noted as resolved by `resolution`.
pub open spec fn replaced(
    before: ConflictFileView,
    after: ConflictFileView,
    at: int,
    text: Seq<char>,
    resolution: Option<ConflictBlockResolution>,
    manual: bool,
) -> bool {
    let block = before.blocks@[at];
    let delta = byte_len(text) - (block.end - block.start);
    let draft = bytes_of(before.draft@);
    &&& bytes_of(after.draft@) == draft.subrange(0, block.start as int) + bytes_of(text)
        + draft.subrange(block.end as int, draft.len() as int)
    &&& after.draft_status == ConflictDraftStatus::Dirty
    &&& after.same_file(before)
    &&& after.blocks@.len() == before.blocks@.len()
    &&& forall|i: int| 0 <= i < at ==> #[trigger] after.blocks@[i] == before.blocks@[i]
    &&& after.blocks@[at].same_sides(block)
    &&& after.blocks@[at].start == block.start
    &&& after.blocks@[at].end == block.start + byte_len(text)
    &&& after.blocks@[at].resolution == resolution
    &&& after.blocks@[at].has_manual_edits == manual
    &&& forall|i: int|
        at < i < before.blocks@.len() ==> is_shifted(
            before.blocks@[i],
            #[trigger] after.blocks@[i],
            delta,
        )
}

// ---------------------------------------------------------------------------
// Laws
// ---------------------------------------------------------------------------
/// Replacing what a block marks keeps the blocks in order and on whole characters, puts
/// exactly the new text under the block, and leaves the text of every other block alone.
pub proof fn lemma_replaced_wf(
    before: ConflictFileView,
    after: ConflictFileView,
    at: int,
    text: Seq<char>,
    resolution: Option<ConflictBlockResolution>,
    manual: bool,
)
    requires
        before.wf(),
        0 <= at < before.blocks@.len(),
        replaced(before, after, at, text, resolution, manual),
        byte_len(after.draft@) <= usize::MAX,
    ensures
        after.wf(),
        after.blocks@[at].marked(after.draft@) == bytes_of(text),
        forall|i: int|
            0 <= i < before.blocks@.len() && i != at ==> (#[trigger] after.blocks@[i]).marked(
                after.draft@,
            ) == before.blocks@[i].marked(before.draft@),
{
    let block = before.blocks@[at];
    let d = before.draft@;
    let start = block.start as int;
    let end = block.end as int;
    lemma_split(d, start);
    lemma_split(d, end);
    let a = d.take(split_index(d, start));
    let b = d.skip(split_index(d, start));
    let p = d.take(split_index(d, end));
    let c = d.skip(split_index(d, end));
    assert(d =~= a + b);
    assert(d =~= p + c);
    let new = after.draft@;
    lemma_bytes_concat(a, text);
    lemma_bytes_concat(a + text, c);
    lemma_bytes_injective(new, a + text + c);
    assert(new =~= a + (text + c));
    let delta = byte_len(text) - (end - start);
    assert(byte_len(a + text) == end + delta);
    // The replaced block itself.
    lemma_prefix_boundary(a, text + c);
    lemma_prefix_boundary(a + text, c);
    assert(after.blocks@[at].marked(new) =~= bytes_of(text));
    assert forall|i: int| 0 <= i < before.blocks@.len() implies (
    #[trigger] after.blocks@[i]).marks_text_of(new) && (i != at ==> after.blocks@[i].marked(new)
        == before.blocks@[i].marked(d)) by {
        let x = before.blocks@[i];
        let y = after.blocks@[i];
        lemma_split(d, x.start as int);
        lemma_split(d, x.end as int);
        if i < at {
            assert(x.end <= block.start);
            lemma_boundary_left(a, b, text + c, x.start as int);
            lemma_boundary_left(a, b, text + c, x.end as int);
            assert(y.marked(new) =~= x.marked(d));
        } else if i > at {
            assert(block.end <= x.start);
            lemma_boundary_right(p, a + text, c, x.start - end);
            lemma_boundary_right(p, a + text, c, x.end - end);
            lemma_split(new, x.start + delta);
            lemma_split(new, x.end + delta);
            assert(y.start == x.start + delta);
            assert(y.end == x.end + delta);
            assert(y.marked(new) =~= x.marked(d));
        }
    }
    assert forall|i: int, j: int| 0 <= i < j < after.blocks@.len() implies (
    #[trigger] after.blocks@[i]).end <= (#[trigger] after.blocks@[j]).start by {
        let xi = before.blocks@[i];
        let xj = before.blocks@[j];
        assert(xi.end <= xj.start);
        lemma_split(d, xj.start as int);
        lemma_split(d, xi.end as int);
        if j > at {
            assert(block.end <= xj.start);
            assert(after.blocks@[j].marks_text_of(new));
            lemma_boundary_right(p, a + text, c, xj.start - end);
            lemma_split(new, xj.start + delta);
        }
    }
}

/// Of two replacements under the same block only the later one counts.
pub proof fn lemma_last_replacement_wins(
    first: ConflictFileView,
    second: ConflictFileView,
    third: ConflictFileView,
    at: int,
    text: Seq<char>,
    resolution: Option<ConflictBlockResolution>,
    manual: bool,
    later_text: Seq<char>,
    later_resolution: Option<ConflictBlockResolution>,
    later_manual: bool,
)
    requires
        first.wf(),
        0 <= at < first.blocks@.len(),
        replaced(first, second, at, text, resolution, manual),
        replaced(second, third, at, later_text, later_resolution, later_manual),
        byte_len(second.draft@) <= usize::MAX,
        byte_len(third.draft@) <= usize::MAX,
    ensures
        replaced(first, third, at, later_text, later_resolution, later_manual),
{
    lemma_replaced_wf(first, second, at, text, resolution, manual);
    lemma_replaced_wf(second, third, at, later_text, later_resolution, later_manual);
    let block = first.blocks@[at];
    let d0 = bytes_of(first.draft@);
    let d1 = bytes_of(second.draft@);
    let d2 = bytes_of(third.draft@);
    lemma_split(first.draft@, block.start as int);
    lemma_split(first.draft@, block.end as int);
    assert(d1.subrange(0, block.start as int) =~= d0.subrange(0, block.start as int));
    assert(d1.subrange(block.start + byte_len(text), d1.len() as int) =~= d0.subrange(
        block.end as int,
        d0.len() as int,
    ));
    assert(d2 =~= d0.subrange(0, block.start as int) + bytes_of(later_text) + d0.subrange(
        block.end as int,
        d0.len() as int,
    ));
    assert forall|i: int| 0 <= i < at implies #[trigger] third.blocks@[i] == first.blocks@[i] by {
        assert(second.blocks@[i] == first.blocks@[i]);
    }
    let delta = byte_len(later_text) - (block.end - block.start);
    assert forall|i: int| at < i < first.blocks@.len() implies is_shifted(
        first.blocks@[i],
        #[trigger] third.blocks@[i],
        delta,
    ) by {
        let x = first.blocks@[i];
        let y = second.blocks@[i];
        assert(block.end <= x.start);
        assert(is_shifted(x, y, byte_len(text) - (block.end - block.start)));
        assert(y.marks_text_of(second.draft@));
        assert(third.blocks@[i].marks_text_of(third.draft@));
        lemma_split(first.draft@, x.start as int);
        lemma_split(first.draft@, x.end as int);
        lemma_split(second.draft@, y.start as int);
        lemma_split(second.draft@, y.end as int);
        lemma_split(third.draft@, third.blocks@[i].start as int);
        lemma_split(third.draft@, third.blocks@[i].end as int);
    }
}

/// A block that an edit of the draft does not touch keeps its text, its resolution and its
/// place between the characters of the draft.
pub proof fn lemma_edit_keeps_untouched_block(
    before: Seq<char>,
    after: Seq<char>,
    x: ConflictBlock,
    y: ConflictBlock,
)
    requires
        x.marks_text_of(before),
        byte_len(after) <= usize::MAX,
        is_edited(x, y, draft_edit(before, after)),
        x.end <= draft_edit(before, after).prefix || x.start >= draft_edit(before, after).old_end,
    ensures
        y.marks_text_of(after),
        y.marked(after) == x.marked(before),
        y.resolution == x.resolution,
        y.has_manual_edits == x.has_manual_edits,
{
    let e = draft_edit(before, after);
    let delta = e.new_end - e.old_end;
    lemma_draft_edit(before, after);
    lemma_split(before, x.start as int);
    lemma_split(before, x.end as int);
    if x.end <= e.prefix {
        let k = common_prefix(before, after);
        lemma_common_prefix(before, after);
        let a = before.take(k);
        assert(before =~= a + before.skip(k));
        assert(after =~= a + after.skip(k));
        lemma_boundary_left(a, before.skip(k), after.skip(k), x.start as int);
        lemma_boundary_left(a, before.skip(k), after.skip(k), x.end as int);
        assert(bytes_of(before).subrange(0, e.prefix).subrange(x.start as int, x.end as int)
            =~= x.marked(before));
        assert(bytes_of(after).subrange(0, e.prefix).subrange(x.start as int, x.end as int)
            =~= y.marked(after));
    } else {
        let k = common_prefix(before, after);
        lemma_common_prefix(before, after);
        let m = common_suffix(before.skip(k), after.skip(k));
        lemma_common_suffix(before.skip(k), after.skip(k));
        let i = before.len() - m;
        let j = after.len() - m;
        assert(before.skip(i) =~= before.skip(k).skip(before.skip(k).len() - m));
        assert(after.skip(j) =~= after.skip(k).skip(after.skip(k).len() - m));
        let c = before.skip(i);
        assert(before =~= before.take(i) + c);
        assert(after =~= after.take(j) + c);
        lemma_boundary_right(before.take(i), after.take(j), c, x.start - e.old_end);
        lemma_boundary_right(before.take(i), after.take(j), c, x.end - e.old_end);
        lemma_split(after, x.start + delta);
        lemma_split(after, x.end + delta);
        let tail_before = bytes_of(before).subrange(e.old_end, byte_len(before) as int);
        let tail_after = bytes_of(after).subrange(e.new_end, byte_len(after) as int);
        assert(tail_before.subrange(x.start - e.old_end, x.end - e.old_end) =~= x.marked(before));
        assert(tail_after.subrange(x.start - e.old_end, x.end - e.old_end) =~= y.marked(after));
    }
}

/// A block that an edit of the draft touches is no longer resolved and counts as edited by
/// hand; if it held the whole edit, it still marks whole characters.
pub proof fn lemma_edit_reopens_touched_block(
    before: Seq<char>,
    after: Seq<char>,
    x: ConflictBlock,
    y: ConflictBlock,
)
    requires
        x.marks_text_of(before),
        byte_len(after) <= usize::MAX,
        is_edited(x, y, draft_edit(before, after)),
        x.end > draft_edit(before, after).prefix,
        x.start < draft_edit(before, after).old_end,
    ensures
        y.resolution is None,
        y.has_manual_edits,
        y.start <= y.end <= byte_len(after),
        x.start <= draft_edit(before, after).prefix && x.end >= draft_edit(before, after).old_end
            ==> y.marks_text_of(after) && y.start == x.start && y.end == x.end + byte_len(after)
            - byte_len(before),
{
    let e = draft_edit(before, after);
    let delta = e.new_end - e.old_end;
    lemma_draft_edit(before, after);
    lemma_split(before, x.start as int);
    lemma_split(before, x.end as int);
    if x.start <= e.prefix && x.end >= e.old_end {
        let k = common_prefix(before, after);
        lemma_common_prefix(before, after);
        let a = before.take(k);
        assert(before =~= a + before.skip(k));
        assert(after =~= a + after.skip(k));
        lemma_boundary_left(a, before.skip(k), after.skip(k), x.start as int);
        let m = common_suffix(before.skip(k), after.skip(k));
        lemma_common_suffix(before.skip(k), after.skip(k));
        let i = before.len() - m;
        let j = after.len() - m;
        assert(before.skip(i) =~= before.skip(k).skip(before.skip(k).len() - m));
        assert(after.skip(j) =~= after.skip(k).skip(after.skip(k).len() - m));
        let c = before.skip(i);
        assert(before =~= before.take(i) + c);
        assert(after =~= after.take(j) + c);
        lemma_boundary_right(before.take(i), after.take(j), c, x.end - e.old_end);
        lemma_split(after, x.end + delta);
    }
}

/// After a side was taken for a block, the text of the block is that side: ours, theirs, or one
/// behind the other in the order that was asked for. Nothing is left of what stood there before.
pub proof fn lemma_applied_block_holds_its_side(
    before: ConflictFileView,
    after: ConflictFileView,
    at: int,
    resolution: ConflictBlockResolution,
)
    requires
        before.wf(),
        0 <= at < before.blocks@.len(),
        replaced(before, after, at, before.resolved(at, resolution), Some(resolution), false),
        byte_len(after.draft@) <= usize::MAX,
    ensures
        ({
            let ours = bytes_of(before.blocks@[at].ours@);
            let theirs = bytes_of(before.blocks@[at].theirs@);
            after.blocks@[at].marked(after.draft@) == match resolution {
                ConflictBlockResolution::Ours => ours,
                ConflictBlockResolution::Theirs => theirs,
                ConflictBlockResolution::BothOursFirst => ours + theirs,
                ConflictBlockResolution::BothTheirsFirst => theirs + ours,
            }
        }),
        after.blocks@[at].resolution == Some(resolution),
        after.blocks@[at].ours == before.blocks@[at].ours,
        after.blocks@[at].theirs == before.blocks@[at].theirs,
{
    let block = before.blocks@[at];
    lemma_replaced_wf(
        before,
        after,
        at,
        before.resolved(at, resolution),
        Some(resolution),
        false,
    );
    lemma_bytes_concat(block.ours@, block.theirs@);
    lemma_bytes_concat(block.theirs@, block.ours@);
}

/// The change from one draft to another is the smallest: if the two are the same up to `start` and
/// from `end` on, and differ right behind the one and right before the other, then it reaches from
/// the one to the other.
pub proof fn lemma_edit_is_the_smallest(
    start: Seq<char>,
    old_middle: Seq<char>,
    new_middle: Seq<char>,
    end: Seq<char>,
)
    requires
        old_middle.len() > 0 && new_middle.len() > 0 ==> old_middle[0] != new_middle[0]
            && old_middle.last() != new_middle.last(),
        old_middle.len() == 0 && new_middle.len() > 0 && end.len() > 0 ==> new_middle[0] != end[0],
        new_middle.len() == 0 && old_middle.len() > 0 && end.len() > 0 ==> old_middle[0] != end[0],
        old_middle.len() > 0 || new_middle.len() > 0,
    ensures
        draft_edit(start + old_middle + end, start + new_middle + end) == (DraftEdit {
            prefix: byte_len(start) as int,
            old_end: byte_len(start + old_middle) as int,
            new_end: byte_len(start + new_middle) as int,
        }),
{
    let before = start + old_middle + end;
    let after = start + new_middle + end;
    let k = start.len() as int;
    lemma_common_is(before, after, 0, k);
    assert(before.skip(k) =~= old_middle + end);
    assert(after.skip(k) =~= new_middle + end);
    let a = before.skip(k).reverse();
    let b = after.skip(k).reverse();
    let m = end.len() as int;
    assert forall|i: int| 0 <= i < m implies a[i] == b[i] by {
        assert(a[i] == end[m - 1 - i]);
        assert(b[i] == end[m - 1 - i]);
    }
    if m < a.len() && m < b.len() {
        assert(a[m] == old_middle.last());
        assert(b[m] == new_middle.last());
    }
    lemma_common_is(a, b, 0, m);
    assert(before.take(k) =~= start);
    assert(before.take(before.len() - m) =~= start + old_middle);
    assert(after.take(after.len() - m) =~= start + new_middle);
}

proof fn lemma_common_is(a: Seq<char>, b: Seq<char>, from: int, k: int)
    requires
        0 <= from <= k <= a.len(),
        k <= b.len(),
        forall|i: int| from <= i < k ==> #[trigger] a[i] == b[i],
        k < a.len() && k < b.len() ==> a[k] != b[k],
    ensures
        common_from(a, b, from) == k,
    decreases k - from,
{
    if from < k {
        assert(a[from] == b[from]);
        lemma_common_is(a, b, from + 1, k);
    }
}

/// A block that a change reaches into from one side starts where the change does if the change
/// starts before it, and ends as far from the end of the draft as it did if the change ends in it.
pub proof fn lemma_edit_at_the_edge_of_a_block(
    before: Seq<char>,
    after: Seq<char>,
    x: ConflictBlock,
    y: ConflictBlock,
)
    requires
        x.marks_text_of(before),
        byte_len(after) <= usize::MAX,
        is_edited(x, y, draft_edit(before, after)),
        x.end > draft_edit(before, after).prefix,
        x.start < draft_edit(before, after).old_end,
    ensures
        y.start == if x.start > draft_edit(before, after).prefix {
            draft_edit(before, after).prefix
        } else {
            x.start as int
        },
        x.end >= draft_edit(before, after).old_end ==> byte_len(before) - x.end == byte_len(after)
            - y.end,
        y.base == x.base,
        y.ours == x.ours,
        y.theirs == x.theirs,
{
    lemma_draft_edit(before, after);
    lemma_split(before, x.end as int);
}

/// What a block keeps while its text changes is what it was made from.
pub proof fn lemma_same_sides(a: ConflictBlock, b: ConflictBlock)
    ensures
        a.same_sides(b) <==> a.base == b.base && a.ours == b.ours && a.theirs == b.theirs,
{
}

/// A block that moves keeps its length and moves by as much as the text before it grew, if it stays
/// within the draft.
pub proof fn lemma_moved_block(before: ConflictBlock, after: ConflictBlock, delta: int)
    requires
        is_shifted(before, after, delta),
        before.start <= before.end,
        0 <= before.start + delta,
        before.end + delta <= usize::MAX,
    ensures
        after.start - before.start == delta,
        after.end - after.start == before.end - before.start,
        after.resolution == before.resolution,
        after.has_manual_edits == before.has_manual_edits,
        after.base == before.base,
        after.ours == before.ours,
        after.theirs == before.theirs,
{
}

/// While its draft changes a file stays the same file.
pub proof fn lemma_same_file(a: ConflictFileView, b: ConflictFileView)
    ensures
        a.same_file(b) <==> a.path == b.path && a.kind == b.kind && a.fallback_reason
            == b.fallback_reason,
{
}

} // verus!
