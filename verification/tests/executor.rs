use cpl::executor::{
    choice_of_lowered, command_to_run, copilot_invocation, key_choice, line_choice, shell_invocation, PromptChoice,
    PromptKey,
};
use cpl::model::{CodeSnippet, Solution};

fn s(t: &str) -> String {
    t.to_string()
}

fn sol(commands: Vec<&str>, snippets: Vec<&str>) -> Solution {
    Solution {
        id: 1,
        prompt_summary: s("p"),
        commands: commands.into_iter().map(s).collect(),
        code_snippets: snippets
            .into_iter()
            .map(|c| CodeSnippet { language: s("py"), code: s(c) })
            .collect(),
        project_path: s("/"),
        git_repo: None,
        is_pinned: false,
        timestamp: 0,
    }
}

#[test]
fn offered_command() {
    assert_eq!(command_to_run(&sol(vec!["ls", "pwd"], vec!["x"])), Some(s("ls")));
    assert_eq!(command_to_run(&sol(vec![], vec!["print(1)", "y"])), Some(s("print(1)")));
    assert_eq!(command_to_run(&sol(vec![], vec![])), None);
}

#[test]
fn prompt_keys() {
    assert_eq!(key_choice(true, PromptKey::Enter), Some(PromptChoice::Run));
    assert_eq!(key_choice(true, PromptKey::Char('c')), Some(PromptChoice::Copy));
    assert_eq!(key_choice(true, PromptKey::Char('C')), Some(PromptChoice::Copy));
    assert_eq!(key_choice(true, PromptKey::Esc), Some(PromptChoice::Cancel));
    assert_eq!(key_choice(true, PromptKey::Char('q')), Some(PromptChoice::Cancel));
    assert_eq!(key_choice(true, PromptKey::Char('Q')), Some(PromptChoice::Cancel));
    assert_eq!(key_choice(true, PromptKey::Char('x')), None);
    assert_eq!(key_choice(true, PromptKey::Other), None);
    assert_eq!(key_choice(false, PromptKey::Enter), None);
}

#[test]
fn typed_answers() {
    assert_eq!(line_choice("y\n"), PromptChoice::Run);
    assert_eq!(line_choice("  YES \n"), PromptChoice::Run);
    assert_eq!(line_choice("\n"), PromptChoice::Run);
    assert_eq!(line_choice(""), PromptChoice::Run);
    assert_eq!(line_choice("C\n"), PromptChoice::Copy);
    assert_eq!(line_choice("n\n"), PromptChoice::Cancel);
    assert_eq!(line_choice("yep"), PromptChoice::Cancel);
}

#[test]
fn shell_invocations() {
    let unix = shell_invocation("echo hi", false);
    assert_eq!(unix.program, "sh");
    assert_eq!(unix.args, vec![s("-c"), s("echo hi")]);
    let win = shell_invocation("dir", true);
    assert_eq!(win.program, "cmd");
    assert_eq!(win.args, vec![s("/C"), s("dir")]);
}

#[test]
fn copilot_invocations() {
    let unix = copilot_invocation("compress png", false);
    assert_eq!(unix.program, "gh");
    assert_eq!(unix.args, vec![s("copilot"), s("suggest"), s("compress png")]);
    let win = copilot_invocation("q", true);
    assert_eq!(win.program, "cmd");
    assert_eq!(win.args, vec![s("/C"), s("gh"), s("copilot"), s("suggest"), s("q")]);
}

#[test]
fn lowered_answers() {
    assert_eq!(choice_of_lowered("y"), PromptChoice::Run);
    assert_eq!(choice_of_lowered("yes"), PromptChoice::Run);
    assert_eq!(choice_of_lowered(""), PromptChoice::Run);
    assert_eq!(choice_of_lowered("c"), PromptChoice::Copy);
    assert_eq!(choice_of_lowered("Y"), PromptChoice::Cancel);
    assert_eq!(choice_of_lowered("no"), PromptChoice::Cancel);
}
