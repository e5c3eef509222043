//! The records that the cache stores: solutions and their code snippets.

use vstd::prelude::*;

use crate::text::owned;

verus! {

/// A fenced code block that a solution kept, with its language tag.
#[derive(Debug, Clone, PartialEq, Eq)]
pub struct CodeSnippet {
    pub language: String,
    pub code: String,
}

/// The mathematical value of a [`CodeSnippet`].
pub struct SnippetModel {
    pub language: Seq<char>,
    pub code: Seq<char>,
}

impl View for CodeSnippet {
    type V = SnippetModel;

    open spec fn view(&self) -> SnippetModel {
        SnippetModel { language: self.language@, code: self.code@ }
    }
}

/// One remembered answer: the request that prompted it, the commands and
/// code snippets it produced, and where and when it was recorded.
#[derive(Debug, Clone, PartialEq, Eq)]
pub struct Solution {
    pub id: i64,
    pub prompt_summary: String,
    pub commands: Vec<String>,
    pub code_snippets: Vec<CodeSnippet>,
    pub project_path: String,
    pub git_repo: Option<String>,
    pub is_pinned: bool,
    pub timestamp: i64,
}

/// The mathematical value of a [`Solution`].
pub struct SolutionModel {
    pub id: i64,
    pub prompt_summary: Seq<char>,
    pub commands: Seq<Seq<char>>,
    pub code_snippets: Seq<SnippetModel>,
    pub project_path: Seq<char>,
    pub git_repo: Option<Seq<char>>,
    pub is_pinned: bool,
    pub timestamp: i64,
}

/// The views of a sequence of snippets.
pub open spec fn snippet_views(v: Seq<CodeSnippet>) -> Seq<SnippetModel> {
    v.map_values(|s: CodeSnippet| s@)
}

/// The views of a sequence of solutions.
pub open spec fn solution_views(v: Seq<Solution>) -> Seq<SolutionModel> {
    v.map_values(|s: Solution| s@)
}

/// The view of an optional string.
pub open spec fn opt_view(o: Option<String>) -> Option<Seq<char>> {
    match o {
        Some(s) => Some(s@),
        None => None,
    }
}

impl View for Solution {
    type V = SolutionModel;

    open spec fn view(&self) -> SolutionModel {
        SolutionModel {
            id: self.id,
            prompt_summary: self.prompt_summary@,
            commands: self.commands@.map_values(|c: String| c@),
            code_snippets: snippet_views(self.code_snippets@),
            project_path: self.project_path@,
            git_repo: opt_view(self.git_repo),
            is_pinned: self.is_pinned,
            timestamp: self.timestamp,
        }
    }
}

/// The text chrono writes for the UTC instant `timestamp` seconds after the
/// Unix epoch with the pattern `%Y-%m-%d %H:%M`, or `None` where chrono has no
/// such instant.
pub uninterp spec fn utc_minute_text(timestamp: i64) -> Option<Seq<char>>;

/// Formats a Unix timestamp as a UTC date and time to the minute.
///
/// Trusted: calls `chrono::Utc.timestamp_opt(timestamp, 0).single()` and, where
/// that yields an instant, `format("%Y-%m-%d %H:%M").to_string()` on it. The
/// contract names the result and says nothing more of it.
#[verifier::external_body]
fn format_utc_minute(timestamp: i64) -> (r: Option<String>)
    ensures
        opt_view(r) == utc_minute_text(timestamp),
{
    match chrono::TimeZone::timestamp_opt(&chrono::Utc, timestamp, 0).single() {
        Some(dt) => Some(dt.format("%Y-%m-%d %H:%M").to_string()),
        None => None,
    }
}

/// The date shown for a solution: the formatted timestamp, or `Unknown Date`.
pub open spec fn date_text(formatted: Option<Seq<char>>) -> Seq<char> {
    match formatted {
        Some(t) => t,
        None => "Unknown Date"@,
    }
}

/// The date shown for a formatted timestamp, `Unknown Date` where there is none.
pub fn date_or_unknown(formatted: Option<String>) -> (r: String)
    ensures
        r@ == date_text(opt_view(formatted)),
{
    match formatted {
        Some(t) => t,
        None => owned("Unknown Date"),
    }
}

impl Solution {
    /// The solution's timestamp as a UTC date and time to the minute.
    pub fn formatted_date(&self) -> (r: String)
        ensures
            r@ == date_text(utc_minute_text(self.timestamp)),
    {
        date_or_unknown(format_utc_minute(self.timestamp))
    }
}

} // verus!
