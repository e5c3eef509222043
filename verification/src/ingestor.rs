//! Turning Copilot / agy CLI transcripts into solutions.

use vstd::prelude::*;

use crate::json::{get_member, get_str, json_get, json_str, parse_json, parsed_json, JsonValue};
use crate::model::{opt_view, snippet_views, solution_views, CodeSnippet, SnippetModel, Solution, SolutionModel};
use crate::text::{
    chars_of, ends_with, find, find_chars, has_prefix, has_suffix, lines_of, replace_all,
    replace_chars, same_chars, slice_chars, strip_prefix_all, strip_prefix_repeated, string_views, contains_string, owned, is_blank, extend_chars, split_lines, starts_with, lemma_trim_idempotent, absent, lemma_absent_find, lemma_find_from, lemma_lines_absent, lemma_single_line, lemma_trim_absent, occurs_at, string_of, strip, strip_chars, trim,
    trim_chars, views, CharClass,
};

verus! {

/// Whether a file name marks a transcript: it starts with `transcript` or
/// ends with `.jsonl`, `.json` or `.log`.
pub open spec fn transcript_name(name: Seq<char>) -> bool {
    ||| has_prefix(name, "transcript"@)
    ||| has_suffix(name, ".jsonl"@)
    ||| has_suffix(name, ".json"@)
    ||| has_suffix(name, ".log"@)
}

/// Whether a parsed solution is worth storing: its request is not blank.
pub fn has_request(sol: &Solution) -> (r: bool)
    ensures
        r == (trim(sol.prompt_summary@).len() > 0),
{
    !is_blank(&chars_of(sol.prompt_summary.as_str()))
}

/// The directories under the home directory that hold transcripts, each as
/// its path components: GitHub Copilot CLI's, then the agy CLI's.
pub fn home_log_dirs() -> (r: Vec<Vec<String>>)
    ensures
        r@.map_values(|d: Vec<String>| string_views(d@)) == seq![
            seq![".config"@, "github-copilot"@],
            seq![".local"@, "share"@, "github-copilot"@],
            seq![".gemini"@, "antigravity-cli"@, "brain"@],
            seq![".config"@, "antigravity-cli"@],
            seq![".antigravity"@],
        ],
{
    let mut r: Vec<Vec<String>> = Vec::new();
    r.push(path_of2(".config", "github-copilot"));
    r.push(path_of3(".local", "share", "github-copilot"));
    r.push(path_of3(".gemini", "antigravity-cli", "brain"));
    r.push(path_of2(".config", "antigravity-cli"));
    let mut last: Vec<String> = Vec::new();
    last.push(owned(".antigravity"));
    assert(string_views(last@) =~= seq![".antigravity"@]);
    r.push(last);
    assert(r@.map_values(|d: Vec<String>| string_views(d@)) =~= seq![
        seq![".config"@, "github-copilot"@],
        seq![".local"@, "share"@, "github-copilot"@],
        seq![".gemini"@, "antigravity-cli"@, "brain"@],
        seq![".config"@, "antigravity-cli"@],
        seq![".antigravity"@],
    ]);
    r
}

/// The directories under each Windows application-data root that hold transcripts.
pub fn app_data_log_dirs() -> (r: Vec<String>)
    ensures
        string_views(r@) == seq!["github-copilot"@, "antigravity-cli"@],
{
    let mut r: Vec<String> = Vec::new();
    r.push(owned("github-copilot"));
    r.push(owned("antigravity-cli"));
    assert(string_views(r@) =~= seq!["github-copilot"@, "antigravity-cli"@]);
    r
}

fn path_of2(a: &str, b: &str) -> (r: Vec<String>)
    ensures
        string_views(r@) == seq![a@, b@],
{
    let mut r: Vec<String> = Vec::new();
    r.push(owned(a));
    r.push(owned(b));
    assert(string_views(r@) =~= seq![a@, b@]);
    r
}

fn path_of3(a: &str, b: &str, c: &str) -> (r: Vec<String>)
    ensures
        string_views(r@) == seq![a@, b@, c@],
{
    let mut r: Vec<String> = Vec::new();
    r.push(owned(a));
    r.push(owned(b));
    r.push(owned(c));
    assert(string_views(r@) =~= seq![a@, b@, c@]);
    r
}

/// Whether the file with this name holds a transcript to scan.
pub fn is_transcript_file(file_name: &str) -> (r: bool)
    ensures
        r == transcript_name(file_name@),
{
    let name = chars_of(file_name);
    starts_with(&name, &chars_of("transcript")) || ends_with(&name, &chars_of(".jsonl"))
        || ends_with(&name, &chars_of(".json")) || ends_with(&name, &chars_of(".log"))
}

/// `s` after the first `<USER_REQUEST>` tag, or all of `s` without one.
pub open spec fn after_open_tag(s: Seq<char>) -> Seq<char> {
    match find(s, "<USER_REQUEST>"@) {
        Some(i) => s.skip(i + "<USER_REQUEST>"@.len()),
        None => s,
    }
}

/// `s` before the first `</USER_REQUEST>` tag, or all of `s` without one.
pub open spec fn before_close_tag(s: Seq<char>) -> Seq<char> {
    match find(s, "</USER_REQUEST>"@) {
        Some(i) => s.take(i),
        None => s,
    }
}

/// The first line that, trimmed, is non-empty and starts with neither `<` nor `{`.
pub open spec fn first_prompt_line(ls: Seq<Seq<char>>) -> Option<Seq<char>>
    decreases ls.len(),
{
    if ls.len() == 0 {
        None
    } else {
        let l = trim(ls[0]);
        if l.len() > 0 && l[0] != '<' && l[0] != '{' {
            Some(l)
        } else {
            first_prompt_line(ls.drop_first())
        }
    }
}

/// The request text a raw user message carries: the part inside the
/// `<USER_REQUEST>` tags (where they occur), trimmed, then its first line that
/// is not markup; the whole trimmed text when no line qualifies.
pub open spec fn clean_prompt(raw: Seq<char>) -> Seq<char> {
    let t = trim(before_close_tag(after_open_tag(raw)));
    if t.len() == 0 {
        Seq::empty()
    } else {
        match first_prompt_line(lines_of(t)) {
            Some(l) => l,
            None => t,
        }
    }
}

/// The request text of a raw user message.
pub fn extract_clean_prompt(raw: &str) -> (r: String)
    ensures
        r@ == clean_prompt(raw@),
{
    let mut text = chars_of(raw);
    let open_tag = chars_of("<USER_REQUEST>");
    match find_chars(&text, &open_tag) {
        Some(start) => {
            text = slice_chars(&text, start + open_tag.len(), text.len());
            assert(text@ =~= after_open_tag(raw@));
        },
        None => {},
    }
    let ghost after_open = text@;
    let close_tag = chars_of("</USER_REQUEST>");
    match find_chars(&text, &close_tag) {
        Some(end) => {
            text = slice_chars(&text, 0, end);
            assert(text@ =~= before_close_tag(after_open));
        },
        None => {},
    }
    let trimmed = trim_chars(&text);
    if trimmed.len() == 0 {
        return String::new();
    }
    let lines = split_lines(&trimmed);
    let mut i: usize = 0;
    assert(views(lines@).skip(0) =~= views(lines@));
    while i < lines.len()
        invariant
            i <= lines.len(),
            views(lines@) == lines_of(trimmed@),
            trimmed@ == trim(before_close_tag(after_open_tag(raw@))),
            trimmed@.len() > 0,
            first_prompt_line(lines_of(trimmed@)) == first_prompt_line(views(lines@).skip(i as int)),
        decreases lines.len() - i,
    {
        let l = trim_chars(&lines[i]);
        assert(views(lines@).skip(i as int)[0] == lines@[i as int]@);
        if l.len() > 0 && l[0] != '<' && l[0] != '{' {
            assert(first_prompt_line(views(lines@).skip(i as int)) == Some(l@));
            return string_of(&l);
        }
        assert(views(lines@).skip(i as int).drop_first() =~= views(lines@).skip(i + 1));
        i += 1;
    }
    string_of(&trimmed)
}

/// A command with surrounding white space and quotes removed and its escaped
/// quotes and backslashes restored.
pub open spec fn clean_command(cmd: Seq<char>) -> Seq<char> {
    let unquoted = strip(strip(trim(cmd), CharClass::Only('"')), CharClass::Only('\''));
    replace_all(replace_all(unquoted, "\\\""@, "\""@), "\\\\"@, "\\"@)
}

/// A command with surrounding white space and quotes removed and `\"` and `\\`
/// unescaped.
pub fn clean_command_str(cmd: &str) -> (r: String)
    ensures
        r@ == clean_command(cmd@),
{
    let trimmed = trim_chars(&chars_of(cmd));
    let unquoted = strip_chars(&strip_chars(&trimmed, &CharClass::Only('"')), &CharClass::Only('\''));
    let escaped_quote = chars_of("\\\"");
    let escaped_backslash = chars_of("\\\\");
    proof {
        reveal_strlit("\\\"");
        reveal_strlit("\\\\");
    }
    let step = replace_chars(&unquoted, &escaped_quote, &chars_of("\""));
    let out = replace_chars(&step, &escaped_backslash, &chars_of("\\"));
    string_of(&out)
}

/// The state of a scan for fenced code blocks: whether a block is open, the
/// language tag of the last opened block, the lines of the open block, and
/// the snippets and commands collected so far.
pub struct FenceScan {
    pub in_block: bool,
    pub lang: Seq<char>,
    pub block: Seq<char>,
    pub snippets: Seq<SnippetModel>,
    pub commands: Seq<Seq<char>>,
}

/// Whether a language tag names a shell, whose blocks are commands to run.
pub open spec fn shell_lang(lang: Seq<char>) -> bool {
    lang == "bash"@ || lang == "sh"@ || lang == "powershell"@ || lang == "cmd"@
}

/// `commands` with `c` added at the end unless it is there already.
pub open spec fn add_new(commands: Seq<Seq<char>>, c: Seq<char>) -> Seq<Seq<char>> {
    if commands.contains(c) {
        commands
    } else {
        commands.push(c)
    }
}

/// What closing a block with the text `block` under the tag `lang` keeps:
/// nothing for a blank block; for a shell tag, its cleaned text as a new
/// command; otherwise a snippet tagged `text` where the tag is empty.
pub open spec fn close_block(st: FenceScan) -> FenceScan {
    let code = trim(st.block);
    let snippets = if code.len() > 0 && !shell_lang(st.lang) {
        st.snippets.push(
            SnippetModel { language: if st.lang.len() == 0 { "text"@ } else { st.lang }, code },
        )
    } else {
        st.snippets
    };
    let commands = if code.len() > 0 && shell_lang(st.lang) {
        add_new(st.commands, clean_command(code))
    } else {
        st.commands
    };
    FenceScan { in_block: false, lang: st.lang, block: Seq::empty(), snippets, commands }
}

/// One line of the scan: a line that trims to something starting with three
/// backticks closes the open block or opens one, taking as tag what follows
/// the backticks; any other line inside a block is added to it.
pub open spec fn fence_step(st: FenceScan, line: Seq<char>) -> FenceScan {
    let t = trim(line);
    if has_prefix(t, "```"@) {
        if st.in_block {
            close_block(st)
        } else {
            FenceScan {
                in_block: true,
                lang: trim(strip_prefix_all(t, "```"@)),
                block: st.block,
                snippets: st.snippets,
                commands: st.commands,
            }
        }
    } else if st.in_block {
        FenceScan {
            in_block: st.in_block,
            lang: st.lang,
            block: st.block + line + seq!['\n'],
            snippets: st.snippets,
            commands: st.commands,
        }
    } else {
        st
    }
}

/// The scan after the lines `ls`, in order, starting from `st`.
pub open spec fn fence_scan(st: FenceScan, ls: Seq<Seq<char>>) -> FenceScan
    decreases ls.len(),
{
    if ls.len() == 0 {
        st
    } else {
        fence_step(fence_scan(st, ls.drop_last()), ls.last())
    }
}

/// A scan with no open block that starts from the given snippets and commands.
pub open spec fn fence_start(snippets: Seq<SnippetModel>, commands: Seq<Seq<char>>) -> FenceScan {
    FenceScan { in_block: false, lang: Seq::empty(), block: Seq::empty(), snippets, commands }
}

/// Whether a language tag names a shell.
pub fn is_shell_lang(lang: &Vec<char>) -> (r: bool)
    ensures
        r == shell_lang(lang@),
{
    same_chars(lang, &chars_of("bash")) || same_chars(lang, &chars_of("sh")) || same_chars(
        lang,
        &chars_of("powershell"),
    ) || same_chars(lang, &chars_of("cmd"))
}

/// Collects the fenced code blocks of `text`: blocks tagged with a shell
/// become commands (each once), the others snippets.
pub fn extract_code_blocks_from_text(
    text: &str,
    snippets: &mut Vec<CodeSnippet>,
    commands: &mut Vec<String>,
)
    ensures
        ({
            let fin = fence_scan(
                fence_start(snippet_views(old(snippets)@), string_views(old(commands)@)),
                lines_of(text@),
            );
            &&& snippet_views(final(snippets)@) == fin.snippets
            &&& string_views(final(commands)@) == fin.commands
        }),
{
    let lines = split_lines(&chars_of(text));
    let fence = chars_of("```");
    let ghost start = fence_start(snippet_views(snippets@), string_views(commands@));
    let mut in_block = false;
    let mut lang: Vec<char> = Vec::new();
    let mut block: Vec<char> = Vec::new();
    let mut i: usize = 0;
    assert(views(lines@).take(0) =~= Seq::<Seq<char>>::empty());
    while i < lines.len()
        invariant
            i <= lines.len(),
            views(lines@) == lines_of(text@),
            fence@ == "```"@,
            start == fence_start(snippet_views(old(snippets)@), string_views(old(commands)@)),
            fence_scan(start, views(lines@).take(i as int)) == (FenceScan {
                in_block,
                lang: lang@,
                block: block@,
                snippets: snippet_views(snippets@),
                commands: string_views(commands@),
            }),
        decreases lines.len() - i,
    {
        let ghost before = FenceScan {
            in_block,
            lang: lang@,
            block: block@,
            snippets: snippet_views(snippets@),
            commands: string_views(commands@),
        };
        let line = &lines[i];
        assert(views(lines@)[i as int] == line@);
        let t = trim_chars(line);
        if starts_with(&t, &fence) {
            if in_block {
                in_block = false;
                let code = trim_chars(&block);
                if code.len() > 0 {
                    if is_shell_lang(&lang) {
                        let code_text = string_of(&code);
                        let clean = clean_command_str(code_text.as_str());
                        if !contains_string(commands, &clean) {
                            commands.push(clean);
                            assert(string_views(commands@) =~= before.commands.push(clean@));
                        }
                    } else {
                        let language = if lang.len() == 0 {
                            string_of(&chars_of("text"))
                        } else {
                            string_of(&lang)
                        };
                        snippets.push(CodeSnippet { language, code: string_of(&code) });
                        assert(snippet_views(snippets@) =~= close_block(before).snippets);
                    }
                }
                block = Vec::new();
                assert(block@ =~= Seq::<char>::empty());
            } else {
                in_block = true;
                lang = trim_chars(&strip_prefix_repeated(&t, &fence));
            }
        } else if in_block {
            extend_chars(&mut block, line);
            block.push('\n');
            assert(block@ =~= before.block + line@ + seq!['\n']);
        }
        assert(views(lines@).take(i + 1).drop_last() =~= views(lines@).take(i as int));
        assert(fence_step(before, line@) == (FenceScan {
            in_block,
            lang: lang@,
            block: block@,
            snippets: snippet_views(snippets@),
            commands: string_views(commands@),
        }));
        i += 1;
    }
    assert(views(lines@).take(lines.len() as int) =~= views(lines@));
}

/// The state of a transcript scan: the request of the current turn, the
/// commands and snippets it has produced so far, and the finished turns.
pub struct TranscriptScan {
    pub prompt: Seq<char>,
    pub commands: Seq<Seq<char>>,
    pub snippets: Seq<SnippetModel>,
    pub solutions: Seq<SolutionModel>,
}

/// A scan before the first line.
pub open spec fn empty_scan() -> TranscriptScan {
    TranscriptScan {
        prompt: Seq::empty(),
        commands: Seq::empty(),
        snippets: Seq::empty(),
        solutions: Seq::empty(),
    }
}

/// The solution that a turn of a transcript becomes.
pub open spec fn turn_solution(
    prompt: Seq<char>,
    commands: Seq<Seq<char>>,
    snippets: Seq<SnippetModel>,
    project_path: Seq<char>,
    timestamp: i64,
) -> SolutionModel {
    SolutionModel {
        id: 0,
        prompt_summary: prompt,
        commands,
        code_snippets: snippets,
        project_path,
        git_repo: None,
        is_pinned: false,
        timestamp,
    }
}

/// The scan with the current turn saved as a solution and its commands and
/// snippets cleared; the request stays.
pub open spec fn save_turn(st: TranscriptScan, project_path: Seq<char>, timestamp: i64) -> TranscriptScan {
    TranscriptScan {
        prompt: st.prompt,
        commands: Seq::empty(),
        snippets: Seq::empty(),
        solutions: st.solutions.push(
            turn_solution(st.prompt, st.commands, st.snippets, project_path, timestamp),
        ),
    }
}

/// The `type` of a transcript event, empty where it has none that is a string.
pub open spec fn event_type(v: JsonValue) -> Seq<char> {
    match json_str(v, "type"@) {
        Some(t) => t,
        None => Seq::empty(),
    }
}

/// The command a tool call ran: its own `CommandLine`, else the `CommandLine`
/// of its `args`, else the `command` of its `args`.
pub open spec fn tool_command(tool: JsonValue) -> Option<Seq<char>> {
    match json_str(tool, "CommandLine"@) {
        Some(c) => Some(c),
        None => match json_get(tool, "args"@) {
            Some(args) => match json_str(args, "CommandLine"@) {
                Some(c) => Some(c),
                None => json_str(args, "command"@),
            },
            None => None,
        },
    }
}

/// `commands` after a tool call: its cleaned command is added when it is
/// non-empty and new.
pub open spec fn tool_step(commands: Seq<Seq<char>>, tool: JsonValue) -> Seq<Seq<char>> {
    match tool_command(tool) {
        Some(c) => if clean_command(c).len() > 0 {
            add_new(commands, clean_command(c))
        } else {
            commands
        },
        None => commands,
    }
}

/// `commands` after the tool calls `tools`, in order.
pub open spec fn tools_scan(commands: Seq<Seq<char>>, tools: Seq<JsonValue>) -> Seq<Seq<char>>
    decreases tools.len(),
{
    if tools.len() == 0 {
        commands
    } else {
        tool_step(tools_scan(commands, tools.drop_last()), tools.last())
    }
}

/// The scan after the user-input part of an event: a `USER_INPUT` event saves
/// the current turn (where it has a request) and takes the cleaned `content`
/// as the new request (where the event has one).
pub open spec fn user_input_step(
    st: TranscriptScan,
    v: JsonValue,
    project_path: Seq<char>,
    timestamp: i64,
) -> TranscriptScan {
    if event_type(v) == "USER_INPUT"@ {
        let saved = if st.prompt.len() > 0 {
            save_turn(st, project_path, timestamp)
        } else {
            st
        };
        match json_str(v, "content"@) {
            Some(c) => TranscriptScan {
                prompt: clean_prompt(c),
                commands: saved.commands,
                snippets: saved.snippets,
                solutions: saved.solutions,
            },
            None => saved,
        }
    } else {
        st
    }
}

/// The scan after the tool-call part of an event: the commands of its
/// `tool_calls` array are collected.
pub open spec fn tool_calls_step(st: TranscriptScan, v: JsonValue) -> TranscriptScan {
    match json_get(v, "tool_calls"@) {
        Some(JsonValue::Array(tools)) => TranscriptScan {
            prompt: st.prompt,
            commands: tools_scan(st.commands, tools@),
            snippets: st.snippets,
            solutions: st.solutions,
        },
        _ => st,
    }
}

/// The scan after the response part of an event: a `PLANNER_RESPONSE` or
/// `MODEL` event with a string `content` has its fenced code blocks collected.
pub open spec fn response_step(st: TranscriptScan, v: JsonValue) -> TranscriptScan {
    match json_str(v, "content"@) {
        Some(c) => if event_type(v) == "PLANNER_RESPONSE"@ || event_type(v) == "MODEL"@ {
            let fin = fence_scan(fence_start(st.snippets, st.commands), lines_of(c));
            TranscriptScan {
                prompt: st.prompt,
                commands: fin.commands,
                snippets: fin.snippets,
                solutions: st.solutions,
            }
        } else {
            st
        },
        None => st,
    }
}

/// The scan after one transcript event.
pub open spec fn event_step(
    st: TranscriptScan,
    v: JsonValue,
    project_path: Seq<char>,
    timestamp: i64,
) -> TranscriptScan {
    response_step(tool_calls_step(user_input_step(st, v, project_path, timestamp), v), v)
}

/// The scan after one line: blank lines and lines that are not JSON are skipped.
pub open spec fn line_step(
    st: TranscriptScan,
    line: Seq<char>,
    project_path: Seq<char>,
    timestamp: i64,
) -> TranscriptScan {
    if trim(line).len() == 0 {
        st
    } else {
        match parsed_json(line) {
            Some(v) => event_step(st, v, project_path, timestamp),
            None => st,
        }
    }
}

/// The scan after the lines `ls`, in order.
pub open spec fn transcript_scan(
    st: TranscriptScan,
    ls: Seq<Seq<char>>,
    project_path: Seq<char>,
    timestamp: i64,
) -> TranscriptScan
    decreases ls.len(),
{
    if ls.len() == 0 {
        st
    } else {
        line_step(transcript_scan(st, ls.drop_last(), project_path, timestamp), ls.last(), project_path, timestamp)
    }
}

/// The solutions of a finished scan: the last turn is saved too where it has a request.
pub open spec fn finish_scan(st: TranscriptScan, project_path: Seq<char>, timestamp: i64) -> Seq<SolutionModel> {
    if st.prompt.len() > 0 {
        st.solutions.push(turn_solution(st.prompt, st.commands, st.snippets, project_path, timestamp))
    } else {
        st.solutions
    }
}

/// The solutions a transcript holds, one per user turn that has a request.
pub open spec fn transcript_solutions(content: Seq<char>, project_path: Seq<char>, timestamp: i64) -> Seq<SolutionModel> {
    finish_scan(transcript_scan(empty_scan(), lines_of(content), project_path, timestamp), project_path, timestamp)
}

/// A transcript scan in progress.
pub struct TranscriptState {
    pub prompt: String,
    pub commands: Vec<String>,
    pub snippets: Vec<CodeSnippet>,
    pub solutions: Vec<Solution>,
}

impl View for TranscriptState {
    type V = TranscriptScan;

    open spec fn view(&self) -> TranscriptScan {
        TranscriptScan {
            prompt: self.prompt@,
            commands: string_views(self.commands@),
            snippets: snippet_views(self.snippets@),
            solutions: solution_views(self.solutions@),
        }
    }
}

impl TranscriptState {
    /// A scan before the first line.
    pub fn new() -> (r: TranscriptState)
        ensures
            r@ == empty_scan(),
    {
        let r = TranscriptState {
            prompt: String::new(),
            commands: Vec::new(),
            snippets: Vec::new(),
            solutions: Vec::new(),
        };
        assert(r@.commands =~= Seq::<Seq<char>>::empty());
        assert(r@.snippets =~= Seq::<SnippetModel>::empty());
        assert(r@.solutions =~= Seq::<SolutionModel>::empty());
        r
    }

    /// Saves the current turn as a solution and clears its commands and snippets.
    pub fn save_turn(&mut self, project_path: &str, timestamp: i64)
        ensures
            final(self)@ == save_turn(old(self)@, project_path@, timestamp),
    {
        let mut commands: Vec<String> = Vec::new();
        std::mem::swap(&mut commands, &mut self.commands);
        let mut snippets: Vec<CodeSnippet> = Vec::new();
        std::mem::swap(&mut snippets, &mut self.snippets);
        let sol = Solution {
            id: 0,
            prompt_summary: self.prompt.clone(),
            commands,
            code_snippets: snippets,
            project_path: owned(project_path),
            git_repo: None,
            is_pinned: false,
            timestamp,
        };
        let ghost old_solutions = self.solutions@;
        self.solutions.push(sol);
        assert(solution_views(self.solutions@) =~= solution_views(old_solutions).push(sol@));
        assert(string_views(self.commands@) =~= Seq::<Seq<char>>::empty());
        assert(snippet_views(self.snippets@) =~= Seq::<SnippetModel>::empty());
    }
}

/// The command a tool call ran.
pub fn tool_call_command(tool: &JsonValue) -> (r: Option<String>)
    ensures
        opt_view(r) == tool_command(*tool),
{
    match get_str(tool, &owned("CommandLine")) {
        Some(c) => Some(c.clone()),
        None => match get_member(tool, &owned("args")) {
            Some(args) => match get_str(args, &owned("CommandLine")) {
                Some(c) => Some(c.clone()),
                None => match get_str(args, &owned("command")) {
                    Some(c) => Some(c.clone()),
                    None => None,
                },
            },
            None => None,
        },
    }
}

/// Adds to `commands` the cleaned commands of the tool calls `tools` that are
/// non-empty and new.
pub fn add_tool_commands(commands: &mut Vec<String>, tools: &Vec<JsonValue>)
    ensures
        string_views(final(commands)@) == tools_scan(string_views(old(commands)@), tools@),
{
    let mut i: usize = 0;
    assert(tools@.take(0) =~= Seq::<JsonValue>::empty());
    while i < tools.len()
        invariant
            i <= tools.len(),
            string_views(commands@) == tools_scan(string_views(old(commands)@), tools@.take(i as int)),
        decreases tools.len() - i,
    {
        let ghost before = string_views(commands@);
        assert(tools@.take(i + 1).drop_last() =~= tools@.take(i as int));
        assert(tools@.take(i + 1).last() == tools@[i as int]);
        match tool_call_command(&tools[i]) {
            Some(cmd) => {
                let clean = clean_command_str(cmd.as_str());
                if !clean.as_str().is_empty() && !contains_string(commands, &clean) {
                    commands.push(clean);
                    assert(string_views(commands@) =~= before.push(clean@));
                }
            },
            None => {},
        }
        i += 1;
    }
    assert(tools@.take(tools.len() as int) =~= tools@);
}

/// Applies one transcript event to the scan.
pub fn apply_transcript_event(
    state: &mut TranscriptState,
    event: &JsonValue,
    project_path: &str,
    timestamp: i64,
)
    ensures
        final(state)@ == event_step(old(state)@, *event, project_path@, timestamp),
{
    let ty = match get_str(event, &owned("type")) {
        Some(t) => t.clone(),
        None => String::new(),
    };
    assert(ty@ == event_type(*event));
    let content = get_str(event, &owned("content"));
    if ty == owned("USER_INPUT") {
        if !state.prompt.as_str().is_empty() {
            state.save_turn(project_path, timestamp);
        }
        match content {
            Some(c) => {
                state.prompt = extract_clean_prompt(c.as_str());
            },
            None => {},
        }
    }
    let ghost after_input = state@;
    assert(after_input == user_input_step(old(state)@, *event, project_path@, timestamp));
    match get_member(event, &owned("tool_calls")) {
        Some(JsonValue::Array(tools)) => {
            add_tool_commands(&mut state.commands, tools);
        },
        _ => {},
    }
    assert(state@ == tool_calls_step(after_input, *event));
    match content {
        Some(c) => {
            if ty == owned("PLANNER_RESPONSE") || ty == owned("MODEL") {
                extract_code_blocks_from_text(c.as_str(), &mut state.snippets, &mut state.commands);
            }
        },
        None => {},
    }
}

/// The solutions a finished scan yields: its saved turns and, where it has a
/// request, the last turn.
pub fn finish_transcript(state: TranscriptState, project_path: &str, timestamp: i64) -> (r: Vec<Solution>)
    ensures
        solution_views(r@) == finish_scan(state@, project_path@, timestamp),
{
    let mut state = state;
    if !state.prompt.as_str().is_empty() {
        state.save_turn(project_path, timestamp);
    }
    state.solutions
}

/// The solutions a transcript holds: each line is parsed as JSON and applied
/// as an event, blank lines and lines that do not parse are skipped.
pub fn parse_transcript(content: &str, project_path: &str, timestamp: i64) -> (r: Vec<Solution>)
    ensures
        solution_views(r@) == transcript_solutions(content@, project_path@, timestamp),
{
    let lines = split_lines(&chars_of(content));
    let mut state = TranscriptState::new();
    let mut i: usize = 0;
    assert(views(lines@).take(0) =~= Seq::<Seq<char>>::empty());
    while i < lines.len()
        invariant
            i <= lines.len(),
            views(lines@) == lines_of(content@),
            state@ == transcript_scan(empty_scan(), views(lines@).take(i as int), project_path@, timestamp),
        decreases lines.len() - i,
    {
        assert(views(lines@).take(i + 1).drop_last() =~= views(lines@).take(i as int));
        assert(views(lines@).take(i + 1).last() == lines@[i as int]@);
        if !is_blank(&lines[i]) {
            let text = string_of(&lines[i]);
            match parse_json(text.as_str()) {
                Some(event) => {
                    apply_transcript_event(&mut state, &event, project_path, timestamp);
                },
                None => {},
            }
        }
        i += 1;
    }
    assert(views(lines@).take(lines.len() as int) =~= views(lines@));
    finish_transcript(state, project_path, timestamp)
}

/// Snippets that each carry a language tag and some code.
pub open spec fn snippets_filled(snips: Seq<SnippetModel>) -> bool {
    forall|i: int| 0 <= i < snips.len() ==> #[trigger] snips[i].language.len() > 0 && snips[i].code.len() > 0
}

/// A fence scan whose commands are distinct and whose snippets are filled.
pub open spec fn fence_sound(st: FenceScan) -> bool {
    st.commands.no_duplicates() && snippets_filled(st.snippets)
}

/// Adding a command that is not there yet keeps the commands distinct.
pub proof fn lemma_add_new_distinct(commands: Seq<Seq<char>>, c: Seq<char>)
    requires
        commands.no_duplicates(),
    ensures
        add_new(commands, c).no_duplicates(),
        add_new(commands, c).contains(c),
{
    if !commands.contains(c) {
        let r = commands.push(c);
        assert(r[r.len() - 1] == c);
        assert forall|i: int, j: int| 0 <= i < r.len() && 0 <= j < r.len() && i != j implies r[i] != r[j] by {
            if i < commands.len() && j < commands.len() {
                assert(r[i] == commands[i] && r[j] == commands[j]);
            } else if i < commands.len() {
                assert(r[i] == commands[i]);
            } else {
                assert(r[j] == commands[j]);
            }
        }
    }
}

proof fn lemma_fence_step_sound(st: FenceScan, line: Seq<char>)
    requires
        fence_sound(st),
    ensures
        fence_sound(fence_step(st, line)),
{
    reveal_strlit("text");
    lemma_add_new_distinct(st.commands, clean_command(trim(st.block)));
    let r = fence_step(st, line);
    assert forall|i: int| 0 <= i < r.snippets.len() implies #[trigger] r.snippets[i].language.len()
        > 0 && r.snippets[i].code.len() > 0 by {
        if i < st.snippets.len() {
            assert(r.snippets[i] == st.snippets[i]);
        }
    }
}

/// A code-block scan keeps its commands distinct and every snippet it keeps
/// has a language tag and some code.
pub proof fn lemma_fence_scan_sound(st: FenceScan, ls: Seq<Seq<char>>)
    requires
        fence_sound(st),
    ensures
        fence_sound(fence_scan(st, ls)),
    decreases ls.len(),
{
    if ls.len() > 0 {
        lemma_fence_scan_sound(st, ls.drop_last());
        lemma_fence_step_sound(fence_scan(st, ls.drop_last()), ls.last());
    }
}

/// Lines, each followed by a line feed, one after another.
pub open spec fn joined_lines(ls: Seq<Seq<char>>) -> Seq<char>
    decreases ls.len(),
{
    if ls.len() == 0 {
        Seq::empty()
    } else {
        joined_lines(ls.drop_last()) + ls.last() + seq!['\n']
    }
}

/// Scanning `a` then `b` is scanning `a + b`.
pub proof fn lemma_fence_scan_split(st: FenceScan, a: Seq<Seq<char>>, b: Seq<Seq<char>>)
    ensures
        fence_scan(st, a + b) == fence_scan(fence_scan(st, a), b),
    decreases b.len(),
{
    if b.len() == 0 {
        assert(a + b =~= a);
    } else {
        lemma_fence_scan_split(st, a, b.drop_last());
        assert((a + b).drop_last() =~= a + b.drop_last());
        assert((a + b).last() == b.last());
    }
}

proof fn lemma_inner_lines(st: FenceScan, inner: Seq<Seq<char>>)
    requires
        st.in_block,
        forall|i: int| 0 <= i < inner.len() ==> !has_prefix(trim(#[trigger] inner[i]), "```"@),
    ensures
        fence_scan(st, inner) == (FenceScan {
            in_block: true,
            lang: st.lang,
            block: st.block + joined_lines(inner),
            snippets: st.snippets,
            commands: st.commands,
        }),
    decreases inner.len(),
{
    if inner.len() == 0 {
        assert(st.block + joined_lines(inner) =~= st.block);
    } else {
        assert forall|i: int| 0 <= i < inner.drop_last().len() implies !has_prefix(
            trim(#[trigger] inner.drop_last()[i]),
            "```"@,
        ) by {
            assert(inner.drop_last()[i] == inner[i]);
        }
        lemma_inner_lines(st, inner.drop_last());
        assert(!has_prefix(trim(inner.last()), "```"@));
        assert(st.block + joined_lines(inner.drop_last()) + inner.last() + seq!['\n'] =~= st.block
            + joined_lines(inner));
    }
}

/// A fenced block keeps the text between its fences as written: scanning an
/// opening fence line, inner lines that are not fences, and a closing fence
/// line, from a scan with no open block, keeps as code the inner lines joined
/// with line feeds and trimmed only as a whole. That code, if not blank,
/// becomes a new command (cleaned, unless already there) for a shell tag, or
/// else a snippet tagged with what follows the opening backticks (`text` if
/// nothing does).
pub proof fn block_code_is_kept_verbatim(
    st: FenceScan,
    open: Seq<char>,
    inner: Seq<Seq<char>>,
    close: Seq<char>,
)
    requires
        !st.in_block,
        st.block.len() == 0,
        has_prefix(trim(open), "```"@),
        has_prefix(trim(close), "```"@),
        forall|i: int| 0 <= i < inner.len() ==> !has_prefix(trim(#[trigger] inner[i]), "```"@),
    ensures
        ({
            let lang = trim(strip_prefix_all(trim(open), "```"@));
            let code = trim(joined_lines(inner));
            let fin = fence_scan(st, seq![open] + inner + seq![close]);
            &&& !fin.in_block
            &&& fin.block.len() == 0
            &&& code.len() > 0 && !shell_lang(lang) ==> fin.snippets == st.snippets.push(
                SnippetModel { language: if lang.len() == 0 { "text"@ } else { lang }, code },
            ) && fin.commands == st.commands
            &&& code.len() > 0 && shell_lang(lang) ==> fin.snippets == st.snippets && fin.commands
                == add_new(st.commands, clean_command(code))
            &&& code.len() == 0 ==> fin.snippets == st.snippets && fin.commands == st.commands
        }),
{
    let lang = trim(strip_prefix_all(trim(open), "```"@));
    let one = seq![open];
    assert(one.drop_last() =~= Seq::<Seq<char>>::empty());
    assert(one.last() == open);
    assert(fence_scan(st, one.drop_last()) == st);
    let opened = fence_scan(st, one);
    assert(opened == fence_step(st, open));
    assert(opened == (FenceScan {
        in_block: true,
        lang,
        block: st.block,
        snippets: st.snippets,
        commands: st.commands,
    }));
    lemma_fence_scan_split(st, one, inner);
    lemma_inner_lines(opened, inner);
    assert(st.block + joined_lines(inner) =~= joined_lines(inner));
    let filled = fence_scan(st, one + inner);
    assert(filled == (FenceScan {
        in_block: true,
        lang,
        block: joined_lines(inner),
        snippets: st.snippets,
        commands: st.commands,
    }));
    let last = seq![close];
    lemma_fence_scan_split(st, one + inner, last);
    assert(last.drop_last() =~= Seq::<Seq<char>>::empty());
    assert(last.last() == close);
    assert(fence_scan(filled, last.drop_last()) == filled);
    assert(fence_scan(filled, last) == fence_step(filled, close));
    assert(fence_step(filled, close) == close_block(filled));
}

/// A `MODEL` or `PLANNER_RESPONSE` event with string `content` and no tool
/// calls harvests the fenced code blocks of its content: the commands and
/// snippets after it are those a code-block scan of the content's lines
/// yields from the ones before it; request and saved solutions stay.
pub proof fn response_blocks_are_harvested(
    st: TranscriptScan,
    v: JsonValue,
    project_path: Seq<char>,
    timestamp: i64,
)
    requires
        event_type(v) == "MODEL"@ || event_type(v) == "PLANNER_RESPONSE"@,
        json_str(v, "content"@) is Some,
        json_get(v, "tool_calls"@) is None,
    ensures
        ({
            let c = json_str(v, "content"@)->0;
            let fin = fence_scan(fence_start(st.snippets, st.commands), lines_of(c));
            event_step(st, v, project_path, timestamp) == TranscriptScan {
                prompt: st.prompt,
                commands: fin.commands,
                snippets: fin.snippets,
                solutions: st.solutions,
            }
        }),
{
    reveal_strlit("MODEL");
    reveal_strlit("PLANNER_RESPONSE");
    reveal_strlit("USER_INPUT");
    assert("MODEL"@.len() == 5);
    assert("PLANNER_RESPONSE"@.len() == 16);
    assert("USER_INPUT"@.len() == 10);
    assert(event_type(v) != "USER_INPUT"@);
    assert(user_input_step(st, v, project_path, timestamp) == st);
    assert(tool_calls_step(st, v) == st);
}

/// A code-block scan that starts from distinct commands keeps them distinct.
pub proof fn lemma_fence_scan_distinct(st: FenceScan, ls: Seq<Seq<char>>)
    requires
        st.commands.no_duplicates(),
    ensures
        fence_scan(st, ls).commands.no_duplicates(),
    decreases ls.len(),
{
    if ls.len() > 0 {
        lemma_fence_scan_distinct(st, ls.drop_last());
        let pre = fence_scan(st, ls.drop_last());
        lemma_add_new_distinct(pre.commands, clean_command(trim(pre.block)));
    }
}

/// Every snippet a code-block scan adds has a language tag and some code.
pub proof fn lemma_fence_scan_fills(st: FenceScan, ls: Seq<Seq<char>>)
    ensures
        forall|i: int|
            st.snippets.len() <= i < fence_scan(st, ls).snippets.len() ==> #[trigger] fence_scan(
                st,
                ls,
            ).snippets[i].language.len() > 0 && fence_scan(st, ls).snippets[i].code.len() > 0,
        st.snippets.len() <= fence_scan(st, ls).snippets.len(),
    decreases ls.len(),
{
    reveal_strlit("text");
    if ls.len() > 0 {
        lemma_fence_scan_fills(st, ls.drop_last());
        let pre = fence_scan(st, ls.drop_last());
        let post = fence_scan(st, ls);
        assert forall|i: int| st.snippets.len() <= i < post.snippets.len() implies #[trigger] post.snippets[i].language.len()
            > 0 && post.snippets[i].code.len() > 0 by {
            if i < pre.snippets.len() {
                assert(post.snippets[i] == pre.snippets[i]);
            }
        }
    }
}

/// A code-block scan only adds: the commands and snippets it started from
/// stay, in order, at the front.
pub proof fn lemma_fence_scan_extends(st: FenceScan, ls: Seq<Seq<char>>)
    ensures
        st.commands.is_prefix_of(fence_scan(st, ls).commands),
        st.snippets.is_prefix_of(fence_scan(st, ls).snippets),
    decreases ls.len(),
{
    if ls.len() > 0 {
        lemma_fence_scan_extends(st, ls.drop_last());
        let pre = fence_scan(st, ls.drop_last());
        let post = fence_scan(st, ls);
        assert(pre.commands.is_prefix_of(post.commands)) by {
            assert(pre.commands.len() <= post.commands.len());
            assert forall|i: int| 0 <= i < pre.commands.len() implies pre.commands[i] == post.commands[i] by {}
        }
        assert(pre.snippets.is_prefix_of(post.snippets)) by {
            assert(pre.snippets.len() <= post.snippets.len());
            assert forall|i: int| 0 <= i < pre.snippets.len() implies pre.snippets[i] == post.snippets[i] by {}
        }
    }
}

/// Collecting tool-call commands keeps the commands distinct.
pub proof fn lemma_tools_scan_distinct(commands: Seq<Seq<char>>, tools: Seq<JsonValue>)
    requires
        commands.no_duplicates(),
    ensures
        tools_scan(commands, tools).no_duplicates(),
    decreases tools.len(),
{
    if tools.len() > 0 {
        lemma_tools_scan_distinct(commands, tools.drop_last());
        let pre = tools_scan(commands, tools.drop_last());
        match tool_command(tools.last()) {
            Some(c) => {
                lemma_add_new_distinct(pre, clean_command(c));
            },
            None => {},
        }
    }
}

proof fn lemma_first_prompt_line(ls: Seq<Seq<char>>)
    ensures
        first_prompt_line(ls) matches Some(l) ==> l.len() > 0 && trim(l) == l && l[0] != '<' && l[0]
            != '{',
    decreases ls.len(),
{
    if ls.len() > 0 {
        lemma_trim_idempotent(ls[0]);
        lemma_first_prompt_line(ls.drop_first());
    }
}

/// The line chosen is the first line that, trimmed, is non-empty and starts
/// with neither `<` nor `{`: it is that line trimmed, and every earlier line
/// fails the test; none is chosen only when every line fails it.
pub proof fn first_prompt_line_is_first(ls: Seq<Seq<char>>)
    ensures
        first_prompt_line(ls) matches Some(l) ==> exists|i: int|
            0 <= i < ls.len() && l == trim(#[trigger] ls[i]) && l.len() > 0 && l[0] != '<' && l[0]
                != '{' && forall|j: int|
                0 <= j < i ==> !(trim(#[trigger] ls[j]).len() > 0 && trim(ls[j])[0] != '<' && trim(
                    ls[j],
                )[0] != '{'),
        first_prompt_line(ls) is None ==> forall|j: int|
            0 <= j < ls.len() ==> !(trim(#[trigger] ls[j]).len() > 0 && trim(ls[j])[0] != '<' && trim(
                ls[j],
            )[0] != '{'),
    decreases ls.len(),
{
    if ls.len() > 0 {
        let rest = ls.drop_first();
        first_prompt_line_is_first(rest);
        let l0 = trim(ls[0]);
        if l0.len() > 0 && l0[0] != '<' && l0[0] != '{' {
            assert(ls[0] == ls[0]);
        } else {
            match first_prompt_line(rest) {
                Some(l) => {
                    let i = choose|i: int|
                        0 <= i < rest.len() && l == trim(#[trigger] rest[i]) && l.len() > 0 && l[0]
                            != '<' && l[0] != '{' && forall|j: int|
                            0 <= j < i ==> !(trim(#[trigger] rest[j]).len() > 0 && trim(rest[j])[0]
                                != '<' && trim(rest[j])[0] != '{');
                    assert(ls[i + 1] == rest[i]);
                    assert forall|j: int| 0 <= j < i + 1 implies !(trim(#[trigger] ls[j]).len() > 0
                        && trim(ls[j])[0] != '<' && trim(ls[j])[0] != '{') by {
                        if j > 0 {
                            assert(ls[j] == rest[j - 1]);
                        }
                    }
                },
                None => {
                    assert forall|j: int| 0 <= j < ls.len() implies !(trim(#[trigger] ls[j]).len()
                        > 0 && trim(ls[j])[0] != '<' && trim(ls[j])[0] != '{') by {
                        if j > 0 {
                            assert(ls[j] == rest[j - 1]);
                        }
                    }
                },
            }
        }
    }
}

/// The request text of a message is its first line that is not markup: where
/// some line of the trimmed request text is, once trimmed, non-empty and
/// starts with neither `<` nor `{`, the result is the first such line,
/// trimmed; otherwise it is the whole trimmed text.
pub proof fn clean_prompt_takes_first_plain_line(raw: Seq<char>)
    ensures
        ({
            let t = trim(before_close_tag(after_open_tag(raw)));
            let ls = lines_of(t);
            &&& (exists|i: int|
                0 <= i < ls.len() && trim(#[trigger] ls[i]).len() > 0 && trim(ls[i])[0] != '<' && trim(
                    ls[i],
                )[0] != '{') ==> exists|i: int|
                0 <= i < ls.len() && clean_prompt(raw) == trim(#[trigger] ls[i]) && forall|j: int|
                    0 <= j < i ==> !(trim(#[trigger] ls[j]).len() > 0 && trim(ls[j])[0] != '<' && trim(
                        ls[j],
                    )[0] != '{')
            &&& (forall|i: int|
                0 <= i < ls.len() ==> !(trim(#[trigger] ls[i]).len() > 0 && trim(ls[i])[0] != '<'
                    && trim(ls[i])[0] != '{')) ==> clean_prompt(raw) == t
        }),
{
    let t = trim(before_close_tag(after_open_tag(raw)));
    let ls = lines_of(t);
    first_prompt_line_is_first(ls);
    if t.len() == 0 {
        assert(ls.len() == 0);
    }
}

/// The request text of a message has no white space at either end.
pub proof fn clean_prompt_is_trimmed(raw: Seq<char>)
    ensures
        trim(clean_prompt(raw)) == clean_prompt(raw),
{
    let t = trim(before_close_tag(after_open_tag(raw)));
    lemma_trim_idempotent(before_close_tag(after_open_tag(raw)));
    lemma_first_prompt_line(lines_of(t));
    if t.len() == 0 {
        assert(trim(Seq::<char>::empty()) =~= Seq::<char>::empty());
    }
}

/// The request text after the opening tag, cut at a closing tag, holds no closing tag.
proof fn lemma_before_close_absent(x: Seq<char>)
    ensures
        absent(before_close_tag(x), "</USER_REQUEST>"@),
{
    let p = "</USER_REQUEST>"@;
    reveal_strlit("</USER_REQUEST>");
    lemma_find_from(x, p, 0);
    let u = before_close_tag(x);
    match find(x, p) {
        Some(i) => {
            assert forall|j: int| !#[trigger] occurs_at(u, p, j) by {
                if occurs_at(u, p, j) {
                    assert(u.subrange(j, j + p.len()) =~= x.subrange(j, j + p.len()));
                    assert(occurs_at(x, p, j));
                    assert(0 <= j < i);
                }
            }
        },
        None => {
            assert forall|j: int| !#[trigger] occurs_at(u, p, j) by {
                if j < 0 {
                } else {
                    assert(!occurs_at(x, p, j));
                }
            }
        },
    }
}

proof fn lemma_first_line_absent(ls: Seq<Seq<char>>, p: Seq<char>)
    requires
        forall|i: int| 0 <= i < ls.len() ==> absent(#[trigger] ls[i], p),
    ensures
        first_prompt_line(ls) matches Some(l) ==> absent(l, p),
    decreases ls.len(),
{
    if ls.len() > 0 {
        assert(absent(ls[0], p));
        lemma_trim_absent(ls[0], p);
        assert forall|i: int| 0 <= i < ls.drop_first().len() implies absent(#[trigger] ls.drop_first()[i], p) by {
            assert(ls.drop_first()[i] == ls[i + 1]);
        }
        lemma_first_line_absent(ls.drop_first(), p);
    }
}

/// Cleaning a request again changes nothing, as long as the request holds
/// no opening `<USER_REQUEST>` tag.
pub proof fn cleaning_twice_changes_nothing(raw: Seq<char>)
    requires
        find(clean_prompt(raw), "<USER_REQUEST>"@) is None,
    ensures
        clean_prompt(clean_prompt(raw)) == clean_prompt(raw),
{
    let close = "</USER_REQUEST>"@;
    let u = before_close_tag(after_open_tag(raw));
    let t0 = trim(u);
    let r = clean_prompt(raw);
    lemma_before_close_absent(after_open_tag(raw));
    lemma_trim_absent(u, close);
    lemma_trim_idempotent(u);
    assert(after_open_tag(r) == r);
    if t0.len() == 0 {
        assert(r == Seq::<char>::empty());
        assert(t0 =~= r);
        lemma_absent_find(r, close, 0);
        assert(trim(Seq::<char>::empty()) =~= Seq::<char>::empty());
    } else {
        lemma_lines_absent(t0, close);
        lemma_first_line_absent(lines_of(t0), close);
        lemma_first_line_absent(lines_of(t0), seq!['\n']);
        lemma_first_prompt_line(lines_of(t0));
        match first_prompt_line(lines_of(t0)) {
            Some(l) => {
                assert(r == l);
                lemma_absent_find(l, close, 0);
                assert(before_close_tag(r) == r);
                lemma_single_line(l);
                assert(first_prompt_line(seq![l]) == Some(l));
            },
            None => {
                assert(r == t0);
                lemma_absent_find(t0, close, 0);
                assert(before_close_tag(r) == r);
            },
        }
    }
}

/// A line that a transcript scan skips: it is blank or does not parse as JSON.
pub open spec fn skipped_line(line: Seq<char>) -> bool {
    trim(line).len() == 0 || parsed_json(line) is None
}

/// Lines that are blank or do not parse change nothing: inserting one
/// anywhere among the lines of a transcript leaves the scan, and so the
/// solutions it yields, as they were.
pub proof fn skipped_lines_change_nothing(
    st: TranscriptScan,
    before: Seq<Seq<char>>,
    line: Seq<char>,
    after: Seq<Seq<char>>,
    project_path: Seq<char>,
    timestamp: i64,
)
    requires
        skipped_line(line),
    ensures
        transcript_scan(st, before.push(line) + after, project_path, timestamp) == transcript_scan(
            st,
            before + after,
            project_path,
            timestamp,
        ),
        finish_scan(transcript_scan(st, before.push(line) + after, project_path, timestamp), project_path, timestamp)
            == finish_scan(transcript_scan(st, before + after, project_path, timestamp), project_path, timestamp),
    decreases after.len(),
{
    if after.len() == 0 {
        assert(before.push(line) + after =~= before.push(line));
        assert(before + after =~= before);
        assert(before.push(line).drop_last() =~= before);
    } else {
        skipped_lines_change_nothing(st, before, line, after.drop_last(), project_path, timestamp);
        assert((before.push(line) + after).drop_last() =~= before.push(line) + after.drop_last());
        assert((before + after).drop_last() =~= before + after.drop_last());
        assert((before.push(line) + after).last() == after.last());
        assert((before + after).last() == after.last());
    }
}

/// The lines of `ls` that a transcript scan does not skip, in order.
pub open spec fn kept_lines(ls: Seq<Seq<char>>) -> Seq<Seq<char>>
    decreases ls.len(),
{
    if ls.len() == 0 {
        Seq::empty()
    } else if skipped_line(ls.last()) {
        kept_lines(ls.drop_last())
    } else {
        kept_lines(ls.drop_last()).push(ls.last())
    }
}

/// A transcript scan depends only on the lines it does not skip: any number
/// of blank or unparsable lines, inserted anywhere, change neither the scan
/// nor the solutions it yields.
pub proof fn only_kept_lines_count(
    st: TranscriptScan,
    ls: Seq<Seq<char>>,
    project_path: Seq<char>,
    timestamp: i64,
)
    ensures
        transcript_scan(st, ls, project_path, timestamp) == transcript_scan(
            st,
            kept_lines(ls),
            project_path,
            timestamp,
        ),
    decreases ls.len(),
{
    if ls.len() > 0 {
        only_kept_lines_count(st, ls.drop_last(), project_path, timestamp);
        if !skipped_line(ls.last()) {
            let k = kept_lines(ls);
            assert(k.drop_last() =~= kept_lines(ls.drop_last()));
            assert(k.last() == ls.last());
        }
    }
}

/// Two transcripts whose lines differ only in blank or unparsable lines yield
/// the same solutions.
pub proof fn skipped_lines_never_matter(
    ls1: Seq<Seq<char>>,
    ls2: Seq<Seq<char>>,
    project_path: Seq<char>,
    timestamp: i64,
)
    requires
        kept_lines(ls1) == kept_lines(ls2),
    ensures
        finish_scan(transcript_scan(empty_scan(), ls1, project_path, timestamp), project_path, timestamp)
            == finish_scan(transcript_scan(empty_scan(), ls2, project_path, timestamp), project_path, timestamp),
{
    only_kept_lines_count(empty_scan(), ls1, project_path, timestamp);
    only_kept_lines_count(empty_scan(), ls2, project_path, timestamp);
}

/// A solution parsed from a transcript: a non-blank, trimmed request,
/// distinct commands, filled snippets, the transcript's project path and
/// time, no id, repository or pin.
pub open spec fn parsed_solution_sound(s: SolutionModel, project_path: Seq<char>, timestamp: i64) -> bool {
    &&& s.id == 0
    &&& s.prompt_summary.len() > 0
    &&& trim(s.prompt_summary) == s.prompt_summary
    &&& s.commands.no_duplicates()
    &&& snippets_filled(s.code_snippets)
    &&& s.project_path == project_path
    &&& s.git_repo is None
    &&& !s.is_pinned
    &&& s.timestamp == timestamp
}

/// A transcript scan whose request is trimmed, whose commands are distinct,
/// whose snippets are filled and whose saved solutions are sound.
pub open spec fn scan_sound(st: TranscriptScan, project_path: Seq<char>, timestamp: i64) -> bool {
    &&& trim(st.prompt) == st.prompt
    &&& st.commands.no_duplicates()
    &&& snippets_filled(st.snippets)
    &&& forall|i: int| 0 <= i < st.solutions.len() ==> #[trigger] parsed_solution_sound(
        st.solutions[i],
        project_path,
        timestamp,
    )
}

proof fn lemma_save_turn_sound(st: TranscriptScan, project_path: Seq<char>, timestamp: i64)
    requires
        scan_sound(st, project_path, timestamp),
        st.prompt.len() > 0,
    ensures
        scan_sound(save_turn(st, project_path, timestamp), project_path, timestamp),
{
    let r = save_turn(st, project_path, timestamp);
    assert(trim(Seq::<char>::empty()) =~= Seq::<char>::empty());
    assert forall|i: int| 0 <= i < r.solutions.len() implies #[trigger] parsed_solution_sound(
        r.solutions[i],
        project_path,
        timestamp,
    ) by {
        if i < st.solutions.len() {
            assert(r.solutions[i] == st.solutions[i]);
        }
    }
}

proof fn lemma_event_step_sound(st: TranscriptScan, v: JsonValue, project_path: Seq<char>, timestamp: i64)
    requires
        scan_sound(st, project_path, timestamp),
    ensures
        scan_sound(event_step(st, v, project_path, timestamp), project_path, timestamp),
{
    if event_type(v) == "USER_INPUT"@ && st.prompt.len() > 0 {
        lemma_save_turn_sound(st, project_path, timestamp);
    }
    match json_str(v, "content"@) {
        Some(c) => clean_prompt_is_trimmed(c),
        None => {},
    }
    let s1 = user_input_step(st, v, project_path, timestamp);
    assert(scan_sound(s1, project_path, timestamp));
    match json_get(v, "tool_calls"@) {
        Some(JsonValue::Array(tools)) => lemma_tools_scan_distinct(s1.commands, tools@),
        _ => {},
    }
    let s2 = tool_calls_step(s1, v);
    assert(scan_sound(s2, project_path, timestamp));
    match json_str(v, "content"@) {
        Some(c) => lemma_fence_scan_sound(fence_start(s2.snippets, s2.commands), lines_of(c)),
        None => {},
    }
}

proof fn lemma_transcript_scan_sound(
    st: TranscriptScan,
    ls: Seq<Seq<char>>,
    project_path: Seq<char>,
    timestamp: i64,
)
    requires
        scan_sound(st, project_path, timestamp),
    ensures
        scan_sound(transcript_scan(st, ls, project_path, timestamp), project_path, timestamp),
    decreases ls.len(),
{
    if ls.len() > 0 {
        lemma_transcript_scan_sound(st, ls.drop_last(), project_path, timestamp);
        let pre = transcript_scan(st, ls.drop_last(), project_path, timestamp);
        match parsed_json(ls.last()) {
            Some(v) => lemma_event_step_sound(pre, v, project_path, timestamp),
            None => {},
        }
    }
}

/// Every solution parsed from a transcript has a request that is neither
/// blank nor padded with white space, distinct commands, snippets with a
/// language tag and code, and the transcript's project path and time; none
/// is pinned or tied to a repository.
pub proof fn parsed_solutions_are_sound(content: Seq<char>, project_path: Seq<char>, timestamp: i64)
    ensures
        forall|i: int|
            0 <= i < transcript_solutions(content, project_path, timestamp).len()
                ==> #[trigger] parsed_solution_sound(
                transcript_solutions(content, project_path, timestamp)[i],
                project_path,
                timestamp,
            ),
{
    let st0 = empty_scan();
    assert(trim(Seq::<char>::empty()) =~= Seq::<char>::empty());
    assert(scan_sound(st0, project_path, timestamp));
    lemma_transcript_scan_sound(st0, lines_of(content), project_path, timestamp);
    let st = transcript_scan(st0, lines_of(content), project_path, timestamp);
    if st.prompt.len() > 0 {
        lemma_save_turn_sound(st, project_path, timestamp);
    }
}

} // verus!
