//! The decisions behind running a cached solution: which command to offer,
//! what a key or a typed answer asks for, and how a shell is invoked.

use vstd::prelude::*;

use crate::model::{Solution, SolutionModel};
use crate::text::{chars_of, owned, string_of, string_views, trim, trim_chars};

verus! {

/// The command offered for a solution: its first command, else the code of
/// its first snippet.
pub open spec fn offered_command(s: SolutionModel) -> Option<Seq<char>> {
    if s.commands.len() > 0 {
        Some(s.commands[0])
    } else if s.code_snippets.len() > 0 {
        Some(s.code_snippets[0].code)
    } else {
        None
    }
}

/// The command to offer for a solution, `None` where it has nothing to run.
pub fn command_to_run(sol: &Solution) -> (r: Option<String>)
    ensures
        match r {
            Some(c) => offered_command(sol@) == Some(c@),
            None => offered_command(sol@) is None,
        },
{
    if sol.commands.len() > 0 {
        Some(sol.commands[0].clone())
    } else if sol.code_snippets.len() > 0 {
        Some(sol.code_snippets[0].code.clone())
    } else {
        None
    }
}

/// A key press at the run prompt.
#[derive(Debug, Clone, Copy, PartialEq, Eq)]
pub enum PromptKey {
    Enter,
    Char(char),
    Esc,
    Other,
}

/// What the user asks for at the run prompt.
#[derive(Debug, Clone, Copy, PartialEq, Eq)]
pub enum PromptChoice {
    Run,
    Copy,
    Cancel,
}

/// The choice a key press makes: Enter runs, `c`/`C` copies, Esc or
/// `q`/`Q` cancels; releases and other keys make none.
pub open spec fn key_choice_of(pressed: bool, key: PromptKey) -> Option<PromptChoice> {
    if !pressed {
        None
    } else {
        match key {
            PromptKey::Enter => Some(PromptChoice::Run),
            PromptKey::Char(c) => if c == 'c' || c == 'C' {
                Some(PromptChoice::Copy)
            } else if c == 'q' || c == 'Q' {
                Some(PromptChoice::Cancel)
            } else {
                None
            },
            PromptKey::Esc => Some(PromptChoice::Cancel),
            PromptKey::Other => None,
        }
    }
}

/// The choice a key event makes; `pressed` is false for a release or repeat.
pub fn key_choice(pressed: bool, key: PromptKey) -> (r: Option<PromptChoice>)
    ensures
        r == key_choice_of(pressed, key),
{
    if !pressed {
        return None;
    }
    match key {
        PromptKey::Enter => Some(PromptChoice::Run),
        PromptKey::Char('c') | PromptKey::Char('C') => Some(PromptChoice::Copy),
        PromptKey::Esc | PromptKey::Char('q') | PromptKey::Char('Q') => Some(PromptChoice::Cancel),
        _ => None,
    }
}

/// What `str::to_lowercase` returns for `s`.
pub uninterp spec fn lowercase(s: Seq<char>) -> Seq<char>;

/// The lowercase form of a text.
///
/// Trusted: calls `str::to_lowercase`. The contract names the result and says
/// nothing more of it.
#[verifier::external_body]
fn to_lowercase(s: &str) -> (r: String)
    ensures
        r@ == lowercase(s@),
{
    s.to_lowercase()
}

/// The choice a trimmed, lowercased answer makes: `y`, `yes` or nothing runs,
/// `c` copies, anything else cancels.
pub open spec fn lowered_choice(a: Seq<char>) -> PromptChoice {
    if a == "y"@ || a == "yes"@ || a.len() == 0 {
        PromptChoice::Run
    } else if a == "c"@ {
        PromptChoice::Copy
    } else {
        PromptChoice::Cancel
    }
}

/// The choice a typed answer makes: once trimmed and lowercased, `y`, `yes`
/// or nothing runs, `c` copies, anything else cancels.
pub open spec fn line_choice_of(answer: Seq<char>) -> PromptChoice {
    lowered_choice(lowercase(trim(answer)))
}

/// The choice a trimmed, lowercased answer makes.
pub fn choice_of_lowered(lowered: &str) -> (r: PromptChoice)
    ensures
        r == lowered_choice(lowered@),
{
    let a = owned(lowered);
    if a == owned("y") || a == owned("yes") || a.as_str().is_empty() {
        PromptChoice::Run
    } else if a == owned("c") {
        PromptChoice::Copy
    } else {
        PromptChoice::Cancel
    }
}

/// The choice a typed answer makes.
pub fn line_choice(input: &str) -> (r: PromptChoice)
    ensures
        r == line_choice_of(input@),
{
    let trimmed = string_of(&trim_chars(&chars_of(input)));
    let choice = to_lowercase(trimmed.as_str());
    choice_of_lowered(choice.as_str())
}

/// A program to start and its arguments.
#[derive(Debug, Clone, PartialEq, Eq)]
pub struct Invocation {
    pub program: String,
    pub args: Vec<String>,
}

/// How a command line is handed to the shell: `cmd /C` on Windows, `sh -c` elsewhere.
pub fn shell_invocation(cmd: &str, windows: bool) -> (r: Invocation)
    ensures
        windows ==> r.program@ == "cmd"@ && string_views(r.args@) == seq!["/C"@, cmd@],
        !windows ==> r.program@ == "sh"@ && string_views(r.args@) == seq!["-c"@, cmd@],
{
    let mut args: Vec<String> = Vec::new();
    let program = if windows {
        args.push(owned("/C"));
        owned("cmd")
    } else {
        args.push(owned("-c"));
        owned("sh")
    };
    args.push(owned(cmd));
    assert(string_views(args@) =~= seq![args@[0]@, cmd@]);
    Invocation { program, args }
}

/// How a question is handed to the cloud assistant: `gh copilot suggest`,
/// through `cmd /C` on Windows.
pub fn copilot_invocation(query: &str, windows: bool) -> (r: Invocation)
    ensures
        windows ==> r.program@ == "cmd"@ && string_views(r.args@) == seq![
            "/C"@,
            "gh"@,
            "copilot"@,
            "suggest"@,
            query@,
        ],
        !windows ==> r.program@ == "gh"@ && string_views(r.args@) == seq![
            "copilot"@,
            "suggest"@,
            query@,
        ],
{
    let mut args: Vec<String> = Vec::new();
    let program = if windows {
        args.push(owned("/C"));
        args.push(owned("gh"));
        owned("cmd")
    } else {
        owned("gh")
    };
    let ghost head = string_views(args@);
    args.push(owned("copilot"));
    args.push(owned("suggest"));
    args.push(owned(query));
    assert(string_views(args@) =~= head + seq!["copilot"@, "suggest"@, query@]);
    Invocation { program, args }
}

} // verus!
