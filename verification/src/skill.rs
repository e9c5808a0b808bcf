//! The skill repository: commands, change marks, push outcomes and the
//! lines of its history.

use vstd::prelude::*;
use crate::git::{format_utc, message_text, shown_message, time_or_empty};
use crate::text::{has_substring, owned, str_contains, string_of_range, chars_of, trim, trim_str};

verus! {

/// A skill command.
pub enum SkillCmd {
    Status,
    Push { message: Option<String> },
    Diff,
    Log { count: usize },
}

/// What a skill command does, with the commit message settled.
pub enum SkillPlan {
    Status,
    Push { message: String },
    Diff,
    Log { count: usize },
}

/// The commit message used when none is given.
pub open spec fn default_push_message() -> Seq<char> {
    "skill: 스킬 파일 업데이트"@
}

/// What a skill command does: a push without a message uses the default
/// message.
pub fn run(cmd: SkillCmd) -> (r: SkillPlan)
    ensures
        match cmd {
            SkillCmd::Status => r is Status,
            SkillCmd::Push { message: Some(m) } => r == SkillPlan::Push { message: m },
            SkillCmd::Push { message: None } => r matches SkillPlan::Push { message } && message@
                == default_push_message(),
            SkillCmd::Diff => r is Diff,
            SkillCmd::Log { count } => r == SkillPlan::Log { count },
        },
{
    match cmd {
        SkillCmd::Status => SkillPlan::Status,
        SkillCmd::Push { message } => match message {
            Some(m) => SkillPlan::Push { message: m },
            None => SkillPlan::Push { message: owned("skill: 스킬 파일 업데이트") },
        },
        SkillCmd::Diff => SkillPlan::Diff,
        SkillCmd::Log { count } => SkillPlan::Log { count },
    }
}

/// The mark of a changed file: added, modified, deleted, or changed
/// otherwise, in that order of precedence.
pub open spec fn change_mark_of(is_new: bool, is_modified: bool, is_deleted: bool) -> Seq<char> {
    if is_new {
        "추가"@
    } else if is_modified {
        "수정"@
    } else if is_deleted {
        "삭제"@
    } else {
        "변경"@
    }
}

/// The mark of a changed file in the working tree.
pub fn change_mark(is_new: bool, is_modified: bool, is_deleted: bool) -> (r: &'static str)
    ensures
        r@ == change_mark_of(is_new, is_modified, is_deleted),
{
    if is_new {
        "추가"
    } else if is_modified {
        "수정"
    } else if is_deleted {
        "삭제"
    } else {
        "변경"
    }
}

/// The colored prefix of a diff line by its origin: green `+`, red `-`,
/// a space otherwise.
pub open spec fn diff_prefix_of(origin: char) -> Seq<char> {
    if origin == '+' {
        "\x1b[32m+"@
    } else if origin == '-' {
        "\x1b[31m-"@
    } else {
        " "@
    }
}

/// The colored prefix of a diff line.
pub fn diff_prefix(origin: char) -> (r: &'static str)
    ensures
        r@ == diff_prefix_of(origin),
{
    if origin == '+' {
        "\x1b[32m+"
    } else if origin == '-' {
        "\x1b[31m-"
    } else {
        " "
    }
}

/// What became of `git push`.
pub enum PushOutcome {
    Pushed,
    /// Nothing new to push.
    UpToDate,
    /// It failed with this (trimmed) error output.
    Failed(String),
}

/// Reads the outcome of `git push` from its status and error output.
pub fn push_outcome(success: bool, stderr: &str) -> (r: PushOutcome)
    ensures
        success ==> r is Pushed,
        !success && has_substring(stderr@, "up-to-date"@) ==> r is UpToDate,
        !success && !has_substring(stderr@, "up-to-date"@) ==> (r matches PushOutcome::Failed(m)
            && m@ == trim(stderr@)),
{
    if success {
        PushOutcome::Pushed
    } else if str_contains(stderr, "up-to-date") {
        PushOutcome::UpToDate
    } else {
        PushOutcome::Failed(trim_str(stderr))
    }
}

/// The line of one commit in the skill history: the first seven characters
/// of its id, its time and its message.
pub open spec fn skill_log_line_of(oid: Seq<char>, secs: i64, message: Option<Seq<char>>) -> Seq<char> {
    "  "@ + oid.take(7) + " "@ + time_or_empty(secs, "%Y-%m-%d %H:%M"@) + " "@ + shown_message(message)
}

/// The line of one commit in the skill history. The id must begin with
/// seven ASCII characters, as a hexadecimal commit id does.
pub fn skill_log_line(oid: &str, secs: i64, message: &Option<String>) -> (r: String)
    requires
        oid@.len() >= 7,
        forall|i: int| 0 <= i < 7 ==> (oid@[i] as u32) < 128,
    ensures
        r@ == skill_log_line_of(oid@, secs, message.deep_view()),
{
    let oc = chars_of(oid);
    let short = string_of_range(&oc, 0, 7);
    let mut r = owned("  ");
    r.append(short.as_str());
    r.append(" ");
    match format_utc(secs, "%Y-%m-%d %H:%M") {
        Some(t) => r.append(t.as_str()),
        None => {},
    }
    r.append(" ");
    let m = message_text(message);
    r.append(m.as_str());
    assert(oid@.subrange(0, 7) =~= oid@.take(7));
    r
}

} // verus!
