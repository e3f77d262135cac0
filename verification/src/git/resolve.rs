//! Showing and resolving one conflict.

use vstd::prelude::*;
use vstd::string::StringExecFns;
use vstd::utf8::{decode_utf8, encode_utf8_decode_utf8, encode_utf8_valid_utf8, valid_utf8};

use crate::git::conflicts::{are_fresh_blocks, fault_text, parse_diff3_conflict_text, parsed_text};
use crate::git::outside::utf8_text;
use crate::git::paths::{ensure_worktree_relative_path, leads_inside, PathPart};
use crate::git::service::Reports;
use crate::strings::{cat2, cat3};
use crate::types::conflicts::{
    ConflictDraftStatus, ConflictFileKind, ConflictFileView, ConflictResolutionSide,
};
use crate::types::{GitError, OperationEvent, OperationEventView};

verus! {

/// One side of a conflict as the index keeps it.
pub struct ConflictEntry {
    /// Its file mode; 0 if it is no file.
    pub mode: u32,
    /// Whether its contents are binary; unknown if they cannot be read.
    pub binary: Option<bool>,
}

impl ConflictEntry {
    pub open spec fn is_text(self) -> bool {
        self.mode != 0 && self.binary == Some(false)
    }
}

/// Whether some byte is zero.
pub fn blob_is_binary(content: &[u8]) -> (r: bool)
    ensures
        r == content@.contains(0u8),
{
    let mut i: usize = 0;
    while i < content.len()
        invariant
            i <= content@.len(),
            forall|j: int| 0 <= j < i ==> content@[j] != 0u8,
        decreases content@.len() - i,
    {
        if content[i] == 0 {
            return true;
        }
        i = i + 1;
    }
    false
}

/// How a conflict can be shown.
pub open spec fn conflict_kind(
    ancestor: Option<ConflictEntry>,
    ours: Option<ConflictEntry>,
    theirs: Option<ConflictEntry>,
) -> ConflictFileKind {
    match (ancestor, ours, theirs) {
        (Some(a), Some(o), Some(t)) => if a.is_text() && o.is_text() && t.is_text() {
            ConflictFileKind::Text
        } else {
            ConflictFileKind::Binary
        },
        _ => ConflictFileKind::Unsupported,
    }
}

/// Whether `view` shows a conflict that cannot be edited as text, and why.
pub open spec fn is_fallback(view: ConflictFileView, path: Seq<char>, kind: ConflictFileKind) -> bool {
    &&& view.path@ == path
    &&& view.kind == kind
    &&& view.draft@.len() == 0
    &&& view.blocks@.len() == 0
    &&& view.draft_status == ConflictDraftStatus::Clean
    &&& view.fallback_reason matches Some(reason) && reason@ == match kind {
        ConflictFileKind::Unsupported => "该冲突缺少三方文本内容，请使用快捷解决按钮"@,
        _ => "该冲突文件不能使用文本合并编辑器"@,
    }
}

/// Whether `view` shows the conflict that the text of a merge holds.
pub open spec fn shows_merge(
    view: Result<ConflictFileView, GitError>,
    path: Seq<char>,
    merged: Seq<u8>,
) -> bool {
    if !valid_utf8(merged) {
        view matches Err(e) && e.says("该冲突文件不是 UTF-8 文本，暂不能使用可视化编辑器"@)
    } else {
        match parsed_text(decode_utf8(merged)) {
            Ok((draft, texts)) => {
                &&& view matches Ok(v)
                &&& v.path@ == path
                &&& v.kind == ConflictFileKind::Text
                &&& v.draft@ == draft
                &&& are_fresh_blocks(v.blocks@, texts)
                &&& v.draft_status == ConflictDraftStatus::Clean
                &&& v.fallback_reason is None
            },
            Err(fault) => view matches Err(e) && e.says(fault_text(fault)),
        }
    }
}

fn entry_is_text(entry: &ConflictEntry) -> (r: bool)
    ensures
        r == entry.is_text(),
{
    entry.mode != 0 && match entry.binary {
        Some(binary) => !binary,
        None => false,
    }
}

/// How to show a conflict: without its text, or once its sides are merged.
pub fn conflict_fallback(
    path: &str,
    ancestor: &Option<ConflictEntry>,
    ours: &Option<ConflictEntry>,
    theirs: &Option<ConflictEntry>,
) -> (r: Option<ConflictFileView>)
    ensures
        match conflict_kind(*ancestor, *ours, *theirs) {
            ConflictFileKind::Text => r is None,
            kind => r matches Some(view) && is_fallback(view, path@, kind),
        },
{
    match (ancestor, ours, theirs) {
        (Some(a), Some(o), Some(t)) => {
            if entry_is_text(a) && entry_is_text(o) && entry_is_text(t) {
                None
            } else {
                Some(
                    fallback_view(
                        path,
                        ConflictFileKind::Binary,
                        "该冲突文件不能使用文本合并编辑器",
                    ),
                )
            }
        },
        _ => Some(
            fallback_view(
                path,
                ConflictFileKind::Unsupported,
                "该冲突缺少三方文本内容，请使用快捷解决按钮",
            ),
        ),
    }
}

fn fallback_view(path: &str, kind: ConflictFileKind, reason: &str) -> (r: ConflictFileView)
    ensures
        r.path@ == path@,
        r.kind == kind,
        r.draft@.len() == 0,
        r.blocks@.len() == 0,
        r.draft_status == ConflictDraftStatus::Clean,
        r.fallback_reason matches Some(x) && x@ == reason@,
{
    ConflictFileView {
        path: String::from_str(path),
        kind,
        draft: String::new(),
        blocks: Vec::new(),
        draft_status: ConflictDraftStatus::Clean,
        fallback_reason: Some(String::from_str(reason)),
    }
}

/// Shows the conflict in the text of a merge.
pub fn conflict_file_view(path: &str, merged: &[u8]) -> (r: Result<ConflictFileView, GitError>)
    ensures
        shows_merge(r, path@, merged@),
{
    match utf8_text(merged) {
        None => Err(
            GitError::Message(
                "该冲突文件不是 UTF-8 文本，暂不能使用可视化编辑器".to_string(),
            ),
        ),
        Some(text) => {
            proof {
                encode_utf8_valid_utf8(text@);
                encode_utf8_decode_utf8(text@);
            }
            match parse_diff3_conflict_text(text.as_str()) {
                Ok((draft, blocks)) => Ok(
                    ConflictFileView {
                        path: String::from_str(path),
                        kind: ConflictFileKind::Text,
                        draft,
                        blocks,
                        draft_status: ConflictDraftStatus::Clean,
                        fallback_reason: None,
                    },
                ),
                Err(e) => Err(e),
            }
        },
    }
}

// ---------------------------------------------------------------------------
// Resolving
// ---------------------------------------------------------------------------
/// What is reported when the index has no conflict to give.
pub fn conflict_for_path(not_found: bool, path: &str, message: String) -> (r: GitError)
    ensures
        not_found ==> r.says("该文件不存在冲突："@ + path@),
        !not_found ==> r.git_says(message@),
{
    if not_found {
        GitError::Message(cat2("该文件不存在冲突：", path))
    } else {
        GitError::Git(message)
    }
}

/// What the index says of a path that is to be resolved.
#[derive(Debug, PartialEq, Eq)]
pub enum ConflictLookup {
    Found,
    /// There is no conflict at the path; the message of the Git library.
    NotFound(String),
    /// It could not be found out, for this reason.
    Failed(String),
}

/// Whether `r` says if there is a conflict to resolve at `path`. A path that may lead out of the
/// worktree is refused first, and `refusal` says what is not done.
pub open spec fn finds_conflict(
    r: Result<(), GitError>,
    parts: Seq<PathPart>,
    refusal: Seq<char>,
    lookup: ConflictLookup,
    path: Seq<char>,
) -> bool {
    if !leads_inside(parts) {
        r matches Err(e) && e.says("路径不在工作区内，"@ + refusal)
    } else {
        match lookup {
            ConflictLookup::NotFound(_) => r matches Err(e) && e.says("该文件不存在冲突："@ + path),
            ConflictLookup::Failed(message) => r matches Err(e) && e.git_says(message@),
            ConflictLookup::Found => r is Ok,
        }
    }
}

/// Checks that there is a conflict to resolve at a path.
pub fn conflict_to_resolve(
    parts: &Vec<PathPart>,
    refusal: &str,
    lookup: ConflictLookup,
    path: &str,
) -> (r: Result<(), GitError>)
    ensures
        finds_conflict(r, parts@, refusal@, lookup, path@),
{
    match ensure_worktree_relative_path(parts, refusal) {
        Err(e) => Err(e),
        Ok(_) => match lookup {
            ConflictLookup::NotFound(message) => Err(conflict_for_path(true, path, message)),
            ConflictLookup::Failed(message) => Err(conflict_for_path(false, path, message)),
            ConflictLookup::Found => Ok(()),
        },
    }
}

/// Something to do to a repository, and what is reported once it is done.
#[derive(Debug, PartialEq, Eq)]
pub struct Planned<T> {
    pub todo: T,
    pub finished: OperationEvent,
}

/// How an operation on a conflict begins: with the report that it has started, unless the path
/// is refused before that, and then with something to do or an error. An operation that ends in
/// an error does nothing and has no report that it is finished.
#[derive(Debug, PartialEq, Eq)]
pub struct Begun<T> {
    pub started: Option<OperationEvent>,
    pub next: Result<Planned<T>, GitError>,
}

impl<T> Begun<T> {
    /// Whether the operation begins as one on the conflict at `path` does. Where there is a
    /// conflict, `next` says what is done about it.
    pub open spec fn begins(
        self,
        parts: Seq<PathPart>,
        refusal: Seq<char>,
        lookup: ConflictLookup,
        path: Seq<char>,
        started: Seq<char>,
        finished: Seq<char>,
    ) -> bool {
        &&& if leads_inside(parts) {
            self.started matches Some(event) && event@ == OperationEventView::Started(started)
        } else {
            self.started is None
        }
        &&& self.next matches Err(e) ==> lookup is Found && leads_inside(parts) || finds_conflict(
            Err(e),
            parts,
            refusal,
            lookup,
            path,
        )
        &&& self.next matches Ok(plan) ==> lookup is Found && leads_inside(parts)
            && plan.finished@ == OperationEventView::Finished(finished)
    }
}

/// Begins an operation that does `todo` about the conflict at `path`.
fn begun<T>(
    parts: &Vec<PathPart>,
    refusal: &str,
    reports: Reports,
    lookup: ConflictLookup,
    path: &str,
    todo: Result<T, GitError>,
) -> (r: Begun<T>)
    requires
        reports.started@ is Started,
        reports.finished@ is Finished,
    ensures
        r.begins(
            parts@,
            refusal@,
            lookup,
            path@,
            reports.started@->Started_0,
            reports.finished@->Finished_0,
        ),
        leads_inside(parts@) && lookup is Found ==> match todo {
            Ok(todo) => r.next matches Ok(plan) && plan.todo == todo,
            Err(e) => r.next matches Err(f) && f == e,
        },
{
    match ensure_worktree_relative_path(parts, refusal) {
        Err(e) => Begun { started: None, next: Err(e) },
        Ok(_) => {
            let next: Result<Planned<T>, GitError> = match conflict_to_resolve(
                parts,
                refusal,
                lookup,
                path,
            ) {
                Err(e) => Err(e),
                Ok(_) => match todo {
                    Ok(todo) => Ok(Planned { todo, finished: reports.finished }),
                    Err(e) => Err(e),
                },
            };
            Begun { started: Some(reports.started), next }
        },
    }
}

pub open spec fn side_text(side: ConflictResolutionSide) -> Seq<char> {
    match side {
        ConflictResolutionSide::Ours => "当前版本"@,
        ConflictResolutionSide::Theirs => "传入版本"@,
    }
}

pub fn side_label(side: ConflictResolutionSide) -> (r: &'static str)
    ensures
        r@ == side_text(side),
{
    match side {
        ConflictResolutionSide::Ours => "当前版本",
        ConflictResolutionSide::Theirs => "传入版本",
    }
}

pub fn resolve_reports(side: ConflictResolutionSide) -> (r: Reports)
    ensures
        r.say(
            "正在使用"@ + side_text(side) + "解决冲突"@,
            "已使用"@ + side_text(side) + "解决冲突"@,
        ),
{
    Reports {
        started: OperationEvent::Started(cat3("正在使用", side_label(side), "解决冲突")),
        finished: OperationEvent::Finished(cat3("已使用", side_label(side), "解决冲突")),
    }
}

pub fn apply_draft_reports() -> (r: Reports)
    ensures
        r.say("正在应用冲突草稿"@, "冲突草稿已应用到工作区"@),
{
    Reports {
        started: OperationEvent::Started("正在应用冲突草稿".to_string()),
        finished: OperationEvent::Finished("冲突草稿已应用到工作区".to_string()),
    }
}

pub fn apply_and_resolve_reports() -> (r: Reports)
    ensures
        r.say("正在应用结果并标记冲突解决"@, "冲突结果已应用并标记解决"@),
{
    Reports {
        started: OperationEvent::Started("正在应用结果并标记冲突解决".to_string()),
        finished: OperationEvent::Finished("冲突结果已应用并标记解决".to_string()),
    }
}

pub fn mark_resolved_reports() -> (r: Reports)
    ensures
        r.say("正在标记冲突已解决"@, "冲突已标记为解决"@),
{
    Reports {
        started: OperationEvent::Started("正在标记冲突已解决".to_string()),
        finished: OperationEvent::Finished("冲突已标记为解决".to_string()),
    }
}

/// How one side is taken.
#[derive(Clone, Copy, Debug, PartialEq, Eq, Structural)]
pub enum SideAction {
    /// The side is checked out over the worktree file, then the conflict is marked resolved.
    CheckOut,
    /// The side deleted the file: the file and the conflict go.
    RemoveFile,
}

/// How the conflict at `path` is resolved by taking one side.
pub fn resolve_conflict_with_side(
    parts: &Vec<PathPart>,
    lookup: ConflictLookup,
    path: &str,
    side: ConflictResolutionSide,
    ours_present: bool,
    theirs_present: bool,
) -> (r: Begun<SideAction>)
    ensures
        r.begins(
            parts@,
            "不能解决冲突"@,
            lookup,
            path@,
            "正在使用"@ + side_text(side) + "解决冲突"@,
            "已使用"@ + side_text(side) + "解决冲突"@,
        ),
        leads_inside(parts@) && lookup is Found ==> (r.next matches Ok(plan) && plan.todo == if (
        side == ConflictResolutionSide::Ours && ours_present) || (side
            == ConflictResolutionSide::Theirs && theirs_present) {
            SideAction::CheckOut
        } else {
            SideAction::RemoveFile
        }),
{
    let present: bool = match side {
        ConflictResolutionSide::Ours => ours_present,
        ConflictResolutionSide::Theirs => theirs_present,
    };
    let action: SideAction = if present {
        SideAction::CheckOut
    } else {
        SideAction::RemoveFile
    };
    begun(parts, "不能解决冲突", resolve_reports(side), lookup, path, Ok(action))
}

/// What stands in the worktree at the path of a conflict.
#[derive(Debug, PartialEq, Eq)]
pub enum PathState {
    /// The repository has no worktree.
    NoWorktree,
    File,
    Directory,
    Missing,
    /// It could not be found out, for this reason.
    Unknown(String),
}

/// What becomes of the index entry of a resolved path. The conflict is taken out either way.
#[derive(Clone, Copy, Debug, PartialEq, Eq, Structural)]
pub enum ResolvedEntry {
    /// The file is added as it stands.
    Add,
    /// The file is taken out.
    Remove,
}

/// Whether `r` is what becomes of the index entry, given what stands at the path.
pub open spec fn is_resolved_entry(r: Result<ResolvedEntry, GitError>, state: PathState) -> bool {
    match state {
        PathState::NoWorktree => r matches Err(e) && e.says(
            "裸仓库没有工作区，不能标记冲突已解决"@,
        ),
        PathState::File => r == Ok::<ResolvedEntry, GitError>(ResolvedEntry::Add),
        PathState::Directory => r matches Err(e) && e.says(
            "冲突路径是文件夹，不能标记为已解决"@,
        ),
        PathState::Missing => r == Ok::<ResolvedEntry, GitError>(ResolvedEntry::Remove),
        PathState::Unknown(message) => r matches Err(GitError::Io(m)) && m@ == message@,
    }
}

fn resolved_entry(state: PathState) -> (r: Result<ResolvedEntry, GitError>)
    ensures
        is_resolved_entry(r, state),
{
    match state {
        PathState::NoWorktree => Err(
            GitError::Message("裸仓库没有工作区，不能标记冲突已解决".to_string()),
        ),
        PathState::File => Ok(ResolvedEntry::Add),
        PathState::Directory => Err(
            GitError::Message("冲突路径是文件夹，不能标记为已解决".to_string()),
        ),
        PathState::Missing => Ok(ResolvedEntry::Remove),
        PathState::Unknown(message) => Err(GitError::Io(message)),
    }
}

/// How the conflict at `path` is marked resolved on its own.
pub fn mark_conflict_resolved(
    parts: &Vec<PathPart>,
    lookup: ConflictLookup,
    path: &str,
    state: PathState,
) -> (r: Begun<ResolvedEntry>)
    ensures
        r.begins(
            parts@,
            "不能标记冲突已解决"@,
            lookup,
            path@,
            "正在标记冲突已解决"@,
            "冲突已标记为解决"@,
        ),
        leads_inside(parts@) && lookup is Found ==> match r.next {
            Ok(plan) => is_resolved_entry(Ok(plan.todo), state),
            Err(e) => is_resolved_entry(Err(e), state),
        },
{
    begun(
        parts,
        "不能标记冲突已解决",
        mark_resolved_reports(),
        lookup,
        path,
        resolved_entry(state),
    )
}

/// What becomes of the index entry at `path` once a side or a draft stands in the worktree.
pub fn mark_conflict_resolved_inner(
    lookup: ConflictLookup,
    path: &str,
    state: PathState,
) -> (r: Result<ResolvedEntry, GitError>)
    ensures
        match lookup {
            ConflictLookup::NotFound(_) => r matches Err(e) && e.says("该文件不存在冲突："@ + path@),
            ConflictLookup::Failed(message) => r matches Err(e) && e.git_says(message@),
            ConflictLookup::Found => is_resolved_entry(r, state),
        },
{
    match lookup {
        ConflictLookup::NotFound(message) => Err(conflict_for_path(true, path, message)),
        ConflictLookup::Failed(message) => Err(conflict_for_path(false, path, message)),
        ConflictLookup::Found => resolved_entry(state),
    }
}

/// The one file that applying a draft writes.
#[derive(Debug, PartialEq, Eq)]
pub struct DraftWrite {
    pub path: String,
    pub text: String,
}

/// Whether `next` writes `draft` to `path`, if there is a worktree to write to.
pub open spec fn writes_draft(
    next: Result<Planned<DraftWrite>, GitError>,
    has_worktree: bool,
    path: Seq<char>,
    draft: Seq<char>,
) -> bool {
    if has_worktree {
        next matches Ok(plan) && plan.todo.path@ == path && plan.todo.text@ == draft
    } else {
        next matches Err(e) && e.says("裸仓库没有工作区，不能写入冲突结果"@)
    }
}

fn write_conflict_draft(has_worktree: bool, path: &str, draft: &str) -> (r: Result<
    DraftWrite,
    GitError,
>)
    ensures
        if has_worktree {
            r matches Ok(w) && w.path@ == path@ && w.text@ == draft@
        } else {
            r matches Err(e) && e.says("裸仓库没有工作区，不能写入冲突结果"@)
        },
{
    if has_worktree {
        Ok(DraftWrite { path: path.to_string(), text: draft.to_string() })
    } else {
        Err(GitError::Message("裸仓库没有工作区，不能写入冲突结果".to_string()))
    }
}

/// What is written when a draft is applied; the conflict stays in the index.
pub fn apply_conflict_draft(
    parts: &Vec<PathPart>,
    lookup: ConflictLookup,
    has_worktree: bool,
    path: &str,
    draft: &str,
) -> (r: Begun<DraftWrite>)
    ensures
        r.begins(
            parts@,
            "不能应用冲突草稿"@,
            lookup,
            path@,
            "正在应用冲突草稿"@,
            "冲突草稿已应用到工作区"@,
        ),
        leads_inside(parts@) && lookup is Found ==> writes_draft(
            r.next,
            has_worktree,
            path@,
            draft@,
        ),
{
    begun(
        parts,
        "不能应用冲突草稿",
        apply_draft_reports(),
        lookup,
        path,
        write_conflict_draft(has_worktree, path, draft),
    )
}

/// What is written when a draft is applied and its conflict resolved. What becomes of the index
/// entry afterwards is for [`mark_conflict_resolved_inner`] to say, from what then stands at the
/// path.
pub fn apply_conflict_draft_and_resolve(
    parts: &Vec<PathPart>,
    lookup: ConflictLookup,
    has_worktree: bool,
    path: &str,
    draft: &str,
) -> (r: Begun<DraftWrite>)
    ensures
        r.begins(
            parts@,
            "不能应用并解决冲突"@,
            lookup,
            path@,
            "正在应用结果并标记冲突解决"@,
            "冲突结果已应用并标记解决"@,
        ),
        leads_inside(parts@) && lookup is Found ==> writes_draft(
            r.next,
            has_worktree,
            path@,
            draft@,
        ),
{
    begun(
        parts,
        "不能应用并解决冲突",
        apply_and_resolve_reports(),
        lookup,
        path,
        write_conflict_draft(has_worktree, path, draft),
    )
}

/// A path without a conflict is never resolved: whichever way it is asked for, the answer is the
/// same error, nothing is to be done, and only the start is reported.
pub proof fn lemma_nothing_to_resolve<T>(
    b: Begun<T>,
    parts: Seq<PathPart>,
    refusal: Seq<char>,
    lookup: ConflictLookup,
    path: Seq<char>,
    started: Seq<char>,
    finished: Seq<char>,
)
    requires
        b.begins(parts, refusal, lookup, path, started, finished),
        leads_inside(parts),
        lookup is NotFound,
    ensures
        b.started matches Some(event) && event@ == OperationEventView::Started(started),
        b.next matches Err(e) && e.says("该文件不存在冲突："@ + path),
{
}

/// A conflict that is shown as text starts out in order: its blocks mark whole characters of
/// the draft, one after the other.
pub proof fn lemma_shown_conflict_is_well_formed(
    view: ConflictFileView,
    path: Seq<char>,
    merged: Seq<u8>,
)
    requires
        shows_merge(Ok(view), path, merged),
    ensures
        view.wf(),
{
    crate::git::conflicts::lemma_parsed_blocks(decode_utf8(merged), view.draft@, view.blocks@);
}

/// A conflict can be edited as text if and only if all three versions are there and each is a file
/// that is known not to be binary. It is without content if one is missing.
pub proof fn lemma_text_conflicts(
    ancestor: Option<ConflictEntry>,
    ours: Option<ConflictEntry>,
    theirs: Option<ConflictEntry>,
)
    ensures
        ({
            let kind = conflict_kind(ancestor, ours, theirs);
            &&& kind == ConflictFileKind::Unsupported <==> ancestor is None || ours is None
                || theirs is None
            &&& kind == ConflictFileKind::Text <==> {
                &&& ancestor matches Some(a)
                &&& ours matches Some(o)
                &&& theirs matches Some(t)
                &&& a.mode != 0 && o.mode != 0 && t.mode != 0
                &&& a.binary == Some(false) && o.binary == Some(false) && t.binary == Some(false)
            }
        }),
{
}

/// A conflict that is shown without its text shows no text and no block, and says why.
pub proof fn lemma_fallback_shows_nothing(
    view: ConflictFileView,
    path: Seq<char>,
    kind: ConflictFileKind,
)
    requires
        is_fallback(view, path, kind),
    ensures
        view.path@ == path,
        view.kind == kind,
        view.draft@ == Seq::<char>::empty(),
        view.blocks@.len() == 0,
        view.draft_status == ConflictDraftStatus::Clean,
        view.fallback_reason is Some,
{
}

/// A merge that Git wrote out in pieces is shown as it is: every piece that both sides share stays,
/// and for every conflict our side stands in the draft until another is taken. The conflicts are in
/// order, and none is resolved or edited yet.
pub proof fn lemma_merge_is_shown_in_pieces(
    view: Result<ConflictFileView, GitError>,
    path: Seq<char>,
    merged: Seq<u8>,
)
    requires
        shows_merge(view, path, merged),
        valid_utf8(merged),
        parsed_text(decode_utf8(merged)) is Ok,
    ensures
        view matches Ok(v) && {
            &&& v.path@ == path
            &&& v.kind == ConflictFileKind::Text
            &&& v.draft_status == ConflictDraftStatus::Clean
            &&& v.fallback_reason is None
            &&& v.draft@ == parsed_text(decode_utf8(merged))->Ok_0.0
            &&& v.blocks@.len() == parsed_text(decode_utf8(merged))->Ok_0.1.len()
            &&& forall|i: int|
                0 <= i < v.blocks@.len() ==> (#[trigger] v.blocks@[i]).resolution is None
                    && !v.blocks@[i].has_manual_edits
        },
{
}

/// A conflict is looked up only inside the worktree; one that is not there and a failure to look are
/// told apart.
pub proof fn lemma_conflict_lookup(
    r: Result<(), GitError>,
    parts: Seq<PathPart>,
    refusal: Seq<char>,
    lookup: ConflictLookup,
    path: Seq<char>,
)
    requires
        finds_conflict(r, parts, refusal, lookup, path),
    ensures
        r is Ok <==> lookup is Found && leads_inside(parts),
        leads_inside(parts) ==> match lookup {
            ConflictLookup::Found => true,
            ConflictLookup::NotFound(_) => r matches Err(GitError::Message(m))
                && path.is_suffix_of(m@),
            ConflictLookup::Failed(message) => r matches Err(GitError::Git(m)) && m@ == message@,
        },
        !leads_inside(parts) ==> (r matches Err(GitError::Message(m)) && refusal.is_suffix_of(m@)),
{
    let a = "路径不在工作区内，"@ + refusal;
    assert(a.subrange(a.len() - refusal.len(), a.len() as int) =~= refusal);
    let b = "该文件不存在冲突："@ + path;
    assert(b.subrange(b.len() - path.len(), b.len() as int) =~= path);
}

/// Work on a conflict is reported as started if and only if its path stays inside, and as finished
/// only if the conflict was found.
pub proof fn lemma_work_on_conflicts_is_reported<T>(
    b: Begun<T>,
    parts: Seq<PathPart>,
    refusal: Seq<char>,
    lookup: ConflictLookup,
    path: Seq<char>,
    started: Seq<char>,
    finished: Seq<char>,
)
    requires
        b.begins(parts, refusal, lookup, path, started, finished),
    ensures
        b.started is Some <==> leads_inside(parts),
        b.started matches Some(event) ==> (event matches OperationEvent::Started(m) && m@
            == started),
        b.next is Ok ==> leads_inside(parts) && lookup is Found,
        b.next matches Ok(plan) ==> (plan.finished matches OperationEvent::Finished(m) && m@
            == finished),
{
}

/// A conflict is marked as resolved by adding the file that is there, or by taking the file out that
/// is gone; a folder, a repository without files or a file that cannot be looked at is refused.
pub proof fn lemma_resolved_entries(r: Result<ResolvedEntry, GitError>, state: PathState)
    requires
        is_resolved_entry(r, state),
    ensures
        r is Ok <==> state is File || state is Missing,
        state is File ==> r == Ok::<ResolvedEntry, GitError>(ResolvedEntry::Add),
        state is Missing ==> r == Ok::<ResolvedEntry, GitError>(ResolvedEntry::Remove),
        state matches PathState::Unknown(message) ==> (r matches Err(GitError::Io(m)) && m@
            == message@),
{
}

/// A draft is written to its own path, as it is, and only where there are files.
pub proof fn lemma_drafts_are_written_as_they_are(
    next: Result<Planned<DraftWrite>, GitError>,
    has_worktree: bool,
    path: Seq<char>,
    draft: Seq<char>,
)
    requires
        writes_draft(next, has_worktree, path, draft),
    ensures
        next is Ok <==> has_worktree,
        next matches Ok(plan) ==> plan.todo.path@ == path && plan.todo.text@ == draft,
{
}

/// The two sides of a conflict are called by different names.
pub proof fn lemma_side_names_differ()
    ensures
        side_text(ConflictResolutionSide::Ours) != side_text(ConflictResolutionSide::Theirs),
{
    reveal_strlit("当前版本");
    reveal_strlit("传入版本");
    assert("当前版本"@[0] == '当' && "传入版本"@[0] == '传');
}

} // verus!
