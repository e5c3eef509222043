use cpl::ingestor::{
    app_data_log_dirs, apply_transcript_event, clean_command_str, extract_clean_prompt,
    extract_code_blocks_from_text, has_request, home_log_dirs, is_transcript_file,
    parse_transcript, TranscriptState,
};
use cpl::json::JsonValue;
use cpl::model::{CodeSnippet, Solution};

fn s(t: &str) -> String {
    t.to_string()
}

#[test]
fn transcript_file_names() {
    assert!(is_transcript_file("transcript-2024.txt"));
    assert!(is_transcript_file("session.jsonl"));
    assert!(is_transcript_file("history.json"));
    assert!(is_transcript_file("agent.log"));
    assert!(!is_transcript_file("notes.txt"));
    assert!(!is_transcript_file("my_transcript.txt"));
    assert!(!is_transcript_file(""));
}

#[test]
fn clean_prompt_inside_request_tags() {
    assert_eq!(
        extract_clean_prompt("<system>ctx</system><USER_REQUEST>\n  compress png  \n</USER_REQUEST> trailing"),
        "compress png"
    );
}

#[test]
fn clean_prompt_skips_markup_lines() {
    assert_eq!(extract_clean_prompt("<meta>\n{\"k\":1}\n\n  docker host connection\nmore"), "docker host connection");
}

#[test]
fn clean_prompt_falls_back_to_whole_text() {
    assert_eq!(extract_clean_prompt("  <a>\n{b}  "), "<a>\n{b}");
}

#[test]
fn clean_prompt_of_blank_text_is_empty() {
    assert_eq!(extract_clean_prompt("   \n\t "), "");
    assert_eq!(extract_clean_prompt("<USER_REQUEST>   </USER_REQUEST>"), "");
}

#[test]
fn clean_prompt_only_closing_tag() {
    assert_eq!(extract_clean_prompt("find files</USER_REQUEST>ignored"), "find files");
}

#[test]
fn clean_prompt_is_trimmed_law_example() {
    let p = extract_clean_prompt("\u{3000} line one \r\nline two");
    assert_eq!(p, "line one");
    assert_eq!(p.trim(), p);
}

#[test]
fn clean_command_strips_quotes_and_unescapes() {
    assert_eq!(clean_command_str("  \"ls -la\"  "), "ls -la");
    assert_eq!(clean_command_str("'echo hi'"), "echo hi");
    assert_eq!(clean_command_str("echo \\\"hi\\\" now"), "echo \"hi\" now");
    // The closing quote goes with the surrounding quotes, its backslash stays.
    assert_eq!(clean_command_str("echo \\\"hi\\\""), "echo \"hi\\");
    assert_eq!(clean_command_str("dir C:\\\\Users"), "dir C:\\Users");
    assert_eq!(clean_command_str("\"\"\"x\"\"\""), "x");
    assert_eq!(clean_command_str("\"'mixed'\""), "mixed");
    assert_eq!(clean_command_str("   "), "");
}

#[test]
fn clean_command_replaces_quote_escapes_first() {
    // `\\"` holds an escaped quote after a backslash: the quote goes first.
    assert_eq!(clean_command_str("a\\\\\"b"), "a\\\"b");
}

#[test]
fn code_blocks_become_commands_and_snippets() {
    let text = "Try this:\n```bash\n  pngquant *.png  \n```\nand\n```python\nprint(1)\n```\n```\nplain\n```";
    let mut snippets: Vec<CodeSnippet> = Vec::new();
    let mut commands: Vec<String> = Vec::new();
    extract_code_blocks_from_text(text, &mut snippets, &mut commands);
    assert_eq!(commands, vec![s("pngquant *.png")]);
    assert_eq!(
        snippets,
        vec![
            CodeSnippet { language: s("python"), code: s("print(1)") },
            CodeSnippet { language: s("text"), code: s("plain") },
        ]
    );
}

#[test]
fn code_blocks_keep_commands_distinct() {
    let text = "```sh\nls\n```\n```cmd\nls\n```\n```powershell\nGet-ChildItem\n```";
    let mut snippets: Vec<CodeSnippet> = Vec::new();
    let mut commands: Vec<String> = vec![s("pwd")];
    extract_code_blocks_from_text(text, &mut snippets, &mut commands);
    assert_eq!(commands, vec![s("pwd"), s("ls"), s("Get-ChildItem")]);
    assert!(snippets.is_empty());
}

#[test]
fn code_blocks_blank_and_unclosed_are_dropped() {
    let text = "```rust\n   \n```\n```js\nlet x = 1;";
    let mut snippets: Vec<CodeSnippet> = Vec::new();
    let mut commands: Vec<String> = Vec::new();
    extract_code_blocks_from_text(text, &mut snippets, &mut commands);
    assert!(snippets.is_empty());
    assert!(commands.is_empty());
}

#[test]
fn code_blocks_repeated_fence_and_crlf() {
    let text = "  ``````  ruby \r\nputs 1\r\nputs 2\r\n```\r\n";
    let mut snippets: Vec<CodeSnippet> = Vec::new();
    let mut commands: Vec<String> = Vec::new();
    extract_code_blocks_from_text(text, &mut snippets, &mut commands);
    assert_eq!(snippets, vec![CodeSnippet { language: s("ruby"), code: s("puts 1\nputs 2") }]);
}

#[test]
fn code_blocks_snippets_are_filled_law_example() {
    let text = "```\n  \n```\n```\nx\n```";
    let mut snippets: Vec<CodeSnippet> = Vec::new();
    let mut commands: Vec<String> = Vec::new();
    extract_code_blocks_from_text(text, &mut snippets, &mut commands);
    assert_eq!(snippets.len(), 1);
    assert!(snippets.iter().all(|sn| !sn.language.is_empty() && !sn.code.is_empty()));
}

const SAMPLE: &str = "{\"type\":\"USER_INPUT\",\"content\":\"<USER_REQUEST>compress png</USER_REQUEST>\"}\n{\"type\":\"PLANNER_RESPONSE\",\"content\":\"Use this:\\n```bash\\npngquant *.png\\n```\\n```python\\nprint(1)\\n```\",\"tool_calls\":[{\"CommandLine\":\"\\\"optipng a.png\\\"\"},{\"args\":{\"command\":\"ls\"}},{\"args\":{\"CommandLine\":\"ls\"}}]}\nnot json at all\n   \n{\"type\":\"USER_INPUT\",\"content\":\"docker host connection\"}\r\n{\"type\":\"MODEL\",\"tool_calls\":[{\"args\":{\"CommandLine\":\"docker ps\"}},{\"name\":\"noop\"}]}\n";

fn turn(prompt: &str, commands: Vec<String>, snippets: Vec<CodeSnippet>) -> Solution {
    Solution {
        id: 0,
        prompt_summary: s(prompt),
        commands,
        code_snippets: snippets,
        project_path: s("/work"),
        git_repo: None,
        is_pinned: false,
        timestamp: 1700000000,
    }
}

#[test]
fn transcript_turns_become_solutions() {
    let sols = parse_transcript(SAMPLE, "/work", 1700000000);
    assert_eq!(
        sols,
        vec![
            turn(
                "compress png",
                vec![s("optipng a.png"), s("ls"), s("pngquant *.png")],
                vec![CodeSnippet { language: s("python"), code: s("print(1)") }],
            ),
            turn("docker host connection", vec![s("docker ps")], vec![]),
        ]
    );
}

#[test]
fn transcript_without_user_input_has_no_solutions() {
    let content = "{\"type\":\"MODEL\",\"content\":\"```bash\\nls\\n```\"}\n[1,2]\n\"text\"";
    assert!(parse_transcript(content, "/p", 5).is_empty());
    assert!(parse_transcript("", "/p", 5).is_empty());
}

#[test]
fn transcript_content_of_other_types_is_ignored() {
    let content = "{\"type\":\"USER_INPUT\",\"content\":\"q\"}\n{\"type\":\"TOOL\",\"content\":\"```bash\\nls\\n```\"}";
    let sols = parse_transcript(content, "/p", 5);
    assert_eq!(sols.len(), 1);
    assert!(sols[0].commands.is_empty());
}

#[test]
fn transcript_user_input_without_content_keeps_request() {
    let content = "{\"type\":\"USER_INPUT\",\"content\":\"first\"}\n{\"type\":\"MODEL\",\"tool_calls\":[{\"CommandLine\":\"a\"}]}\n{\"type\":\"USER_INPUT\"}\n{\"type\":\"MODEL\",\"tool_calls\":[{\"CommandLine\":\"b\"}]}";
    let sols = parse_transcript(content, "/p", 5);
    assert_eq!(sols.len(), 2);
    assert_eq!(sols[0].prompt_summary, "first");
    assert_eq!(sols[0].commands, vec![s("a")]);
    assert_eq!(sols[1].prompt_summary, "first");
    assert_eq!(sols[1].commands, vec![s("b")]);
}

#[test]
fn parsed_solutions_sound_law_example() {
    let sols = parse_transcript(SAMPLE, "/work", 1700000000);
    for sol in &sols {
        assert!(has_request(sol));
        assert_eq!(sol.prompt_summary.trim(), sol.prompt_summary);
        let mut seen = sol.commands.clone();
        seen.sort();
        seen.dedup();
        assert_eq!(seen.len(), sol.commands.len());
        assert_eq!(sol.project_path, "/work");
        assert!(!sol.is_pinned);
    }
}

#[test]
fn event_applied_by_hand() {
    let mut state = TranscriptState::new();
    let input = JsonValue::Object(vec![
        (s("content"), JsonValue::Str(s("<USER_REQUEST>list files</USER_REQUEST>"))),
        (s("type"), JsonValue::Str(s("USER_INPUT"))),
    ]);
    apply_transcript_event(&mut state, &input, "/x", 9);
    assert_eq!(state.prompt, "list files");
    let call = JsonValue::Object(vec![(
        s("tool_calls"),
        JsonValue::Array(vec![
            JsonValue::Object(vec![(s("CommandLine"), JsonValue::Str(s(" 'ls -a' ")))]),
            JsonValue::Object(vec![(s("CommandLine"), JsonValue::Number(s("3")))]),
            JsonValue::Null,
        ]),
    )]);
    apply_transcript_event(&mut state, &call, "/x", 9);
    assert_eq!(state.commands, vec![s("ls -a")]);
    apply_transcript_event(&mut state, &input, "/x", 9);
    assert_eq!(state.solutions.len(), 1);
    assert_eq!(state.solutions[0].commands, vec![s("ls -a")]);
    assert!(state.commands.is_empty());
}

#[test]
fn has_request_checks_blank() {
    let mut sol = turn("  ", vec![], vec![]);
    assert!(!has_request(&sol));
    sol.prompt_summary = s(" x ");
    assert!(has_request(&sol));
}

#[test]
fn log_directories() {
    assert_eq!(home_log_dirs()[1], vec![s(".local"), s("share"), s("github-copilot")]);
    assert_eq!(home_log_dirs().len(), 5);
    assert_eq!(app_data_log_dirs(), vec![s("github-copilot"), s("antigravity-cli")]);
}

#[test]
fn skipped_lines_change_nothing_law_example() {
    let noisy = format!("\n   \nnot json\n{}{{broken\n\t\n", SAMPLE.replace("\r\n", "\n\n{oops\r\n"));
    assert_eq!(parse_transcript(&noisy, "/work", 1700000000), parse_transcript(SAMPLE, "/work", 1700000000));
}

#[test]
fn cleaning_twice_changes_nothing_law_example() {
    for raw in [
        "<x>\n<USER_REQUEST>\n  compress png </USER_REQUEST>",
        "  <a>\n{b}  ",
        "\t\n",
        "first line\nsecond",
    ] {
        let once = extract_clean_prompt(raw);
        assert_eq!(extract_clean_prompt(&once), once);
    }
}
