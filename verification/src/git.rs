//! Lines and names around the project's git history and its GitHub remote.

use vstd::prelude::*;
use crate::text::{has_substring, owned, str_contains, trim, trim_str};

verus! {

/// What chrono writes for the UTC time `secs` seconds after the Unix epoch
/// with `pattern`, or `None` when the time is out of chrono's range.
pub uninterp spec fn utc_text(secs: i64, pattern: Seq<char>) -> Option<Seq<char>>;

/// Calls `chrono::DateTime::from_timestamp(secs, 0)` and, when the time is
/// in range, `format(pattern).to_string()`. Only the two patterns that the
/// library uses are accepted, since a malformed pattern makes `to_string`
/// panic. The contract only names the result (`utc_text`).
#[verifier::external_body]
pub(crate) fn format_utc(secs: i64, pattern: &str) -> (r: Option<String>)
    requires
        pattern@ == "%m-%d %H:%M"@ || pattern@ == "%Y-%m-%d %H:%M"@,
    ensures
        r.deep_view() == utc_text(secs, pattern@),
{
    match chrono::DateTime::from_timestamp(secs, 0) {
        Some(dt) => Some(dt.format(pattern).to_string()),
        None => None,
    }
}

/// The time text of a commit, empty when out of range.
pub open spec fn time_or_empty(secs: i64, pattern: Seq<char>) -> Seq<char> {
    match utc_text(secs, pattern) {
        Some(t) => t,
        None => Seq::empty(),
    }
}

/// A commit message as shown: trimmed, `(no message)` when it has none.
pub open spec fn shown_message(message: Option<Seq<char>>) -> Seq<char> {
    match message {
        Some(m) => trim(m),
        None => trim("(no message)"@),
    }
}

/// The line of one commit in the project history: `  MM-DD HH:MM message`.
pub open spec fn history_line_of(secs: i64, message: Option<Seq<char>>) -> Seq<char> {
    "  "@ + time_or_empty(secs, "%m-%d %H:%M"@) + " "@ + shown_message(message)
}

/// The shown message of a commit.
pub(crate) fn message_text(message: &Option<String>) -> (r: String)
    ensures
        r@ == shown_message(message.deep_view()),
{
    match message {
        Some(m) => trim_str(m.as_str()),
        None => trim_str("(no message)"),
    }
}

/// The line of one commit in the project history.
pub fn history_line(secs: i64, message: &Option<String>) -> (r: String)
    ensures
        r@ == history_line_of(secs, message.deep_view()),
{
    let mut r = owned("  ");
    match format_utc(secs, "%m-%d %H:%M") {
        Some(t) => r.append(t.as_str()),
        None => {},
    }
    r.append(" ");
    let m = message_text(message);
    r.append(m.as_str());
    r
}

/// The name of a project's GitHub repository: the prefix and the project.
pub fn repo_name(prefix: &str, project: &str) -> (r: String)
    ensures
        r@ == prefix@ + project@,
{
    let mut r = owned(prefix);
    r.append(project);
    r
}

/// The HTTPS URL of a GitHub repository.
pub fn remote_url(owner: &str, repo: &str) -> (r: String)
    ensures
        r@ == "https://github.com/"@ + owner@ + "/"@ + repo@ + ".git"@,
{
    let mut r = owned("https://github.com/");
    r.append(owner);
    r.append("/");
    r.append(repo);
    r.append(".git");
    r
}

/// What became of creating the GitHub repository.
pub enum RepoCreation {
    Created,
    /// It exists already; the remote is still set up.
    AlreadyExists,
    /// It failed with this (trimmed) error output; nothing more is done.
    Failed(String),
}

/// Reads the outcome of `gh repo create` from its status and error output.
pub fn creation_outcome(success: bool, stderr: &str) -> (r: RepoCreation)
    ensures
        success ==> r is Created,
        !success && has_substring(stderr@, "already exists"@) ==> r is AlreadyExists,
        !success && !has_substring(stderr@, "already exists"@) ==> (r matches RepoCreation::Failed(
            m,
        ) && m@ == trim(stderr@)),
{
    if success {
        RepoCreation::Created
    } else if str_contains(stderr, "already exists") {
        RepoCreation::AlreadyExists
    } else {
        RepoCreation::Failed(trim_str(stderr))
    }
}

} // verus!
