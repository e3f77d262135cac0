//! Messages that are shown for a while.

use vstd::prelude::*;

use crate::strings::{contains_str, contains_text, is_blank, str_eq, trimmed};
use crate::ui::theme;

verus! {

/// How many messages are shown.
pub const MAX_FEEDBACKS: usize = 5;

#[derive(Clone, Copy, Debug, PartialEq, Eq, Structural)]
pub enum AppToastKind {
    Info,
    Success,
    Warning,
    Error,
}

impl AppToastKind {
    pub open spec fn title(self) -> &'static str {
        match self {
            AppToastKind::Info => "提示",
            AppToastKind::Success => "完成",
            AppToastKind::Warning => "注意",
            AppToastKind::Error => "失败",
        }
    }

    pub fn label(self) -> (r: &'static str)
        ensures
            r == self.title(),
    {
        match self {
            AppToastKind::Info => "提示",
            AppToastKind::Success => "完成",
            AppToastKind::Warning => "注意",
            AppToastKind::Error => "失败",
        }
    }

    /// The colours of a message: behind its sign, of its border and of its text.
    pub fn palette(self) -> (r: (u32, u32, u32))
        ensures
            r == match self {
                AppToastKind::Info => (
                    theme::FEEDBACK_INFO_BG,
                    theme::FEEDBACK_INFO_BORDER,
                    theme::FEEDBACK_INFO_TEXT,
                ),
                AppToastKind::Success => (
                    theme::FEEDBACK_SUCCESS_BG,
                    theme::FEEDBACK_SUCCESS_BORDER,
                    theme::FEEDBACK_SUCCESS_TEXT,
                ),
                AppToastKind::Warning => (
                    theme::FEEDBACK_WARNING_BG,
                    theme::FEEDBACK_WARNING_BORDER,
                    theme::FEEDBACK_WARNING_TEXT,
                ),
                AppToastKind::Error => (
                    theme::FEEDBACK_ERROR_BG,
                    theme::FEEDBACK_ERROR_BORDER,
                    theme::FEEDBACK_ERROR_TEXT,
                ),
            },
    {
        match self {
            AppToastKind::Info => (
                theme::FEEDBACK_INFO_BG,
                theme::FEEDBACK_INFO_BORDER,
                theme::FEEDBACK_INFO_TEXT,
            ),
            AppToastKind::Success => (
                theme::FEEDBACK_SUCCESS_BG,
                theme::FEEDBACK_SUCCESS_BORDER,
                theme::FEEDBACK_SUCCESS_TEXT,
            ),
            AppToastKind::Warning => (
                theme::FEEDBACK_WARNING_BG,
                theme::FEEDBACK_WARNING_BORDER,
                theme::FEEDBACK_WARNING_TEXT,
            ),
            AppToastKind::Error => (
                theme::FEEDBACK_ERROR_BG,
                theme::FEEDBACK_ERROR_BORDER,
                theme::FEEDBACK_ERROR_TEXT,
            ),
        }
    }

    pub open spec fn important(self) -> bool {
        self == AppToastKind::Warning || self == AppToastKind::Error
    }

    pub fn is_important(self) -> (r: bool)
        ensures
            r == self.important(),
    {
        match self {
            AppToastKind::Warning | AppToastKind::Error => true,
            _ => false,
        }
    }

    /// The sign of a message.
    pub fn sign(self) -> (r: &'static str)
        ensures
            r == match self {
                AppToastKind::Info => "i",
                AppToastKind::Success => "✓",
                AppToastKind::Warning => "!",
                AppToastKind::Error => "×",
            },
    {
        match self {
            AppToastKind::Info => "i",
            AppToastKind::Success => "✓",
            AppToastKind::Warning => "!",
            AppToastKind::Error => "×",
        }
    }
}

/// A message that is shown until a moment, in milliseconds.
#[derive(Debug, PartialEq, Eq)]
pub struct FeedbackMessage {
    pub id: u64,
    pub kind: AppToastKind,
    pub title: &'static str,
    pub message: String,
    pub expires_at: u64,
}

/// The message of a kind that is shown from `now` on. What is important is shown longer.
pub open spec fn feedback_at(id: u64, kind: AppToastKind, message: String, now: u64) -> FeedbackMessage {
    FeedbackMessage {
        id,
        kind,
        title: kind.title(),
        message,
        expires_at: (now + if kind.important() {
            7_000int
        } else {
            4_000
        }) as u64,
    }
}

impl FeedbackMessage {
    pub fn new(id: u64, kind: AppToastKind, message: String, now: u64) -> (r: Self)
        requires
            now <= u64::MAX - 7_000,
        ensures
            r == feedback_at(id, kind, message, now),
    {
        let ttl: u64 = if kind.is_important() {
            7_000
        } else {
            4_000
        };
        FeedbackMessage { id, kind, title: kind.label(), message, expires_at: now + ttl }
    }

    pub fn is_expired(&self, now: u64) -> (r: bool)
        ensures
            r == (now >= self.expires_at),
    {
        now >= self.expires_at
    }
}

/// The messages that are shown, the latest last.
#[derive(Debug, PartialEq, Eq)]
pub struct Feedbacks {
    pub messages: Vec<FeedbackMessage>,
    pub next_id: u64,
}

/// The id after `id`. No message has 0.
pub open spec fn id_after(id: u64) -> u64 {
    if id == u64::MAX {
        1
    } else {
        (id + 1) as u64
    }
}

impl Feedbacks {
    pub open spec fn wf(self) -> bool {
        self.messages@.len() <= MAX_FEEDBACKS
    }

    pub fn new() -> (r: Self)
        ensures
            r.wf(),
            r.messages@.len() == 0,
            r.next_id == 0,
    {
        Feedbacks { messages: Vec::new(), next_id: 0 }
    }

    /// Shows a message, unless it is blank. The oldest ones leave.
    pub fn notify_toast(&mut self, kind: AppToastKind, message: String, now: u64)
        requires
            old(self).wf(),
            now <= u64::MAX - 7_000,
        ensures
            final(self).wf(),
            if trimmed(message@).len() == 0 {
                final(self).messages@ == old(self).messages@ && final(self).next_id == old(
                    self).next_id
            } else {
                let id = id_after(old(self).next_id);
                let all = old(self).messages@.push(feedback_at(id, kind, message, now));
                final(self).next_id == id && final(self).messages@ == if all.len()
                    > MAX_FEEDBACKS {
                    all.skip(1)
                } else {
                    all
                }
            },
    {
        if is_blank(message.as_str()) {
            return ;
        }
        self.next_id = if self.next_id == u64::MAX {
            1
        } else {
            self.next_id + 1
        };
        self.messages.push(FeedbackMessage::new(self.next_id, kind, message, now));
        let ghost all = self.messages@;
        if self.messages.len() > MAX_FEEDBACKS {
            self.messages.remove(0);
            assert(self.messages@ =~= all.skip(1));
        }
    }

    /// Shows that an operation is done, or that it went wrong.
    pub fn notify_completion(&mut self, message: String, now: u64)
        requires
            old(self).wf(),
            now <= u64::MAX - 7_000,
        ensures
            final(self).wf(),
            ({
                let kind = if contains_text(message@, "失败"@) || contains_text(message@, "冲突"@) {
                    AppToastKind::Warning
                } else {
                    AppToastKind::Success
                };
                if trimmed(message@).len() == 0 {
                    final(self).messages@ == old(self).messages@ && final(self).next_id == old(
                        self).next_id
                } else {
                    let id = id_after(old(self).next_id);
                    let all = old(self).messages@.push(feedback_at(id, kind, message, now));
                    final(self).next_id == id && final(self).messages@ == if all.len()
                        > MAX_FEEDBACKS {
                        all.skip(1)
                    } else {
                        all
                    }
                }
            }),
    {
        let kind: AppToastKind = if contains_str(message.as_str(), "失败") || contains_str(
            message.as_str(),
            "冲突",
        ) {
            AppToastKind::Warning
        } else {
            AppToastKind::Success
        };
        self.notify_toast(kind, message, now);
    }
}

/// Whether a status is worth a message once nothing runs any more.
pub open spec fn is_completion(message: Seq<char>) -> bool {
    ||| contains_text(message, "完成"@)
    ||| contains_text(message, "失败"@)
    ||| contains_text(message, "冲突"@)
    ||| contains_text(message, "已复制"@)
    ||| contains_text(message, "已添加"@)
    ||| contains_text(message, "已更新"@)
    ||| contains_text(message, "已新增"@)
    ||| contains_text(message, "已删除"@)
    ||| contains_text(message, "已刷新"@)
    ||| contains_text(message, "已提交"@)
    ||| contains_text(message, "工作流"@)
}

pub fn should_toast_completion(message: &str) -> (r: bool)
    ensures
        r == is_completion(message@),
{
    contains_str(message, "完成") || contains_str(message, "失败") || contains_str(message, "冲突")
        || contains_str(message, "已复制") || contains_str(message, "已添加") || contains_str(
        message,
        "已更新",
    ) || contains_str(message, "已新增") || contains_str(message, "已删除") || contains_str(
        message,
        "已刷新",
    ) || contains_str(message, "已提交") || contains_str(message, "工作流")
}

/// What a click on a button is answered with.
#[derive(Debug, PartialEq, Eq)]
pub enum ClickFeedback {
    Error(String),
    Success(String),
    Nothing,
}

/// What is known of the window before or after a click.
pub struct ClickState {
    pub busy: bool,
    pub status: String,
    pub feedbacks: usize,
}

/// What a click on a button is answered with: the error that it led to, or what it completed,
/// unless the click was answered already.
pub fn click_feedback(before: &ClickState, after: &ClickState, last_error: &Option<String>) -> (r:
    ClickFeedback)
    ensures
        r == if before.feedbacks != after.feedbacks {
            ClickFeedback::Nothing
        } else if last_error is Some {
            ClickFeedback::Error(last_error->0)
        } else if !before.busy && !after.busy && after.status@ != before.status@ && is_completion(
            after.status@,
        ) {
            ClickFeedback::Success(after.status)
        } else {
            ClickFeedback::Nothing
        },
{
    if before.feedbacks != after.feedbacks {
        return ClickFeedback::Nothing;
    }
    match last_error {
        Some(error) => ClickFeedback::Error(error.clone()),
        None => {
            if !before.busy && !after.busy && !str_eq(after.status.as_str(), before.status.as_str())
                && should_toast_completion(after.status.as_str()) {
                ClickFeedback::Success(after.status.clone())
            } else {
                ClickFeedback::Nothing
            }
        },
    }
}

// ---------------------------------------------------------------------------
// Laws
// ---------------------------------------------------------------------------
/// Warnings and errors stay seven seconds, the others four; each has what it says, its kind and the
/// word for it.
pub proof fn lemma_feedback(id: u64, kind: AppToastKind, message: String, now: u64)
    requires
        now <= u64::MAX - 7_000,
    ensures
        ({
            let f = feedback_at(id, kind, message, now);
            &&& f.id == id
            &&& f.kind == kind
            &&& f.message == message
            &&& f.title == kind.title()
            &&& kind == AppToastKind::Warning || kind == AppToastKind::Error ==> f.expires_at == now
                + 7_000
            &&& kind == AppToastKind::Info || kind == AppToastKind::Success ==> f.expires_at == now
                + 4_000
        }),
{
}

/// The kinds of messages are told apart by their titles.
pub proof fn lemma_titles_differ(a: AppToastKind, b: AppToastKind)
    requires
        a != b,
    ensures
        a.title()@ != b.title()@,
{
    reveal_strlit("提示");
    reveal_strlit("完成");
    reveal_strlit("注意");
    reveal_strlit("失败");
    assert("提示"@[0] == '提' && "完成"@[0] == '完' && "注意"@[0] == '注' && "失败"@[0] == '失');
}

/// Messages are numbered one after the other, and start again from one.
pub proof fn lemma_message_numbers(id: u64)
    ensures
        id < u64::MAX ==> id_after(id) == id + 1,
        id == u64::MAX ==> id_after(id) == 1,
        id_after(id) != 0,
{
}

/// What says that something is done, failed, in conflict or changed is shown as a message, whatever
/// stands before and behind the word for it.
pub proof fn lemma_completions(before: Seq<char>, behind: Seq<char>)
    ensures
        is_completion(before + "完成"@ + behind),
        is_completion(before + "失败"@ + behind),
        is_completion(before + "冲突"@ + behind),
        is_completion(before + "已复制"@ + behind),
        is_completion(before + "已添加"@ + behind),
        is_completion(before + "已更新"@ + behind),
        is_completion(before + "已新增"@ + behind),
        is_completion(before + "已删除"@ + behind),
        is_completion(before + "已刷新"@ + behind),
        is_completion(before + "已提交"@ + behind),
        is_completion(before + "工作流"@ + behind),
        !is_completion(Seq::empty()),
{
    crate::strings::lemma_contained_text(before, "完成"@, behind);
    crate::strings::lemma_contained_text(before, "失败"@, behind);
    crate::strings::lemma_contained_text(before, "冲突"@, behind);
    crate::strings::lemma_contained_text(before, "已复制"@, behind);
    crate::strings::lemma_contained_text(before, "已添加"@, behind);
    crate::strings::lemma_contained_text(before, "已更新"@, behind);
    crate::strings::lemma_contained_text(before, "已新增"@, behind);
    crate::strings::lemma_contained_text(before, "已删除"@, behind);
    crate::strings::lemma_contained_text(before, "已刷新"@, behind);
    crate::strings::lemma_contained_text(before, "已提交"@, behind);
    crate::strings::lemma_contained_text(before, "工作流"@, behind);
    reveal_strlit("完成");
    reveal_strlit("失败");
    reveal_strlit("冲突");
    reveal_strlit("已复制");
    reveal_strlit("已添加");
    reveal_strlit("已更新");
    reveal_strlit("已新增");
    reveal_strlit("已删除");
    reveal_strlit("已刷新");
    reveal_strlit("已提交");
    reveal_strlit("工作流");
}

} // verus!
