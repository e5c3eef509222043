//! The decisions and texts of the result browser: key handling, the list,
//! the preview pane and the plain text listing.

use vstd::prelude::*;

use crate::model::{date_text, utc_minute_text, CodeSnippet, SnippetModel, Solution, SolutionModel, solution_views};
use crate::text::{chars_of, extend_chars, string_of, string_views};

verus! {

/// The character of the decimal digit `d`.
pub open spec fn digit_char(d: int) -> char {
    (d + 48) as char
}

/// The decimal digits of `n`, most significant first.
pub open spec fn decimal(n: nat) -> Seq<char>
    decreases n,
{
    if n < 10 {
        seq![digit_char(n as int)]
    } else {
        decimal(n / 10) + seq![digit_char((n % 10) as int)]
    }
}

/// The decimal digits of `n`.
pub fn decimal_chars(n: usize) -> (r: Vec<char>)
    ensures
        r@ == decimal(n as nat),
    decreases n,
{
    let d = (n % 10) as u8;
    let c = (d + 48) as char;
    if n < 10 {
        let mut r: Vec<char> = Vec::new();
        r.push(c);
        assert(r@ =~= seq![digit_char(n as int)]);
        r
    } else {
        let mut r = decimal_chars(n / 10);
        r.push(c);
        r
    }
}

/// The pin mark in front of a title in the browser list.
pub open spec fn list_pin_icon(pinned: bool) -> Seq<char> {
    if pinned {
        "⭐ "@
    } else {
        "  "@
    }
}

/// The title of a solution in the browser list: its pin mark, then its request.
pub fn list_item_title(sol: &Solution) -> (r: String)
    ensures
        r@ == list_pin_icon(sol.is_pinned) + sol.prompt_summary@,
{
    let mut t = if sol.is_pinned {
        chars_of("⭐ ")
    } else {
        chars_of("  ")
    };
    extend_chars(&mut t, &chars_of(sol.prompt_summary.as_str()));
    string_of(&t)
}

/// The header line of the browser: how many solutions it shows and, while
/// one is typed, the search filter.
pub open spec fn browser_header(count: nat, filter: Seq<char>) -> Seq<char> {
    " 🔍 cpl recall - AI 解法與指令記憶庫 (共 "@ + decimal(count) + " 筆解法, Enter: 執行, c: 複製, Esc: 離開)"@
        + (if filter.len() > 0 { "  搜尋: "@ + filter } else { Seq::empty() })
}

/// The header line of the browser for `count` shown solutions and a filter.
pub fn browser_header_text(count: usize, filter: &str) -> (r: String)
    ensures
        r@ == browser_header(count as nat, filter@),
{
    let mut t = chars_of(" 🔍 cpl recall - AI 解法與指令記憶庫 (共 ");
    extend_chars(&mut t, &decimal_chars(count));
    extend_chars(&mut t, &chars_of(" 筆解法, Enter: 執行, c: 複製, Esc: 離開)"));
    let f = chars_of(filter);
    let ghost before = t@;
    if f.len() > 0 {
        extend_chars(&mut t, &chars_of("  搜尋: "));
        extend_chars(&mut t, &f);
    }
    assert(t@ =~= browser_header(count as nat, filter@));
    string_of(&t)
}

/// One `  $ command` line per command.
pub open spec fn command_lines(cmds: Seq<Seq<char>>) -> Seq<char>
    decreases cmds.len(),
{
    if cmds.len() == 0 {
        Seq::empty()
    } else {
        command_lines(cmds.drop_last()) + "  $ "@ + cmds.last() + "\n"@
    }
}

/// One `--- [language] ---` header and the code per snippet.
pub open spec fn snippet_blocks(snips: Seq<SnippetModel>) -> Seq<char>
    decreases snips.len(),
{
    if snips.len() == 0 {
        Seq::empty()
    } else {
        snippet_blocks(snips.drop_last()) + "--- ["@ + snips.last().language + "] ---\n"@
            + snips.last().code + "\n"@
    }
}

/// The solution the preview shows: the selected one of the shown solutions
/// `shown` (indices into `sols`), the first where none is selected, where it exists.
pub open spec fn previewed(sols: Seq<SolutionModel>, shown: Seq<int>, selected: Option<usize>) -> Option<SolutionModel> {
    let i = match selected {
        Some(i) => i as int,
        None => 0,
    };
    if i < shown.len() {
        Some(sols[shown[i]])
    } else {
        None
    }
}

/// The preview pane: date, path, the commands (or a note that there are
/// none) and the code snippets, if any.
pub open spec fn preview(sol: Option<SolutionModel>) -> Seq<char> {
    match sol {
        None => "尚無選取的項目"@,
        Some(s) => "📅 時間: "@ + date_text(utc_minute_text(s.timestamp)) + "\n📂 路徑: "@
            + s.project_path + "\n\n💡 執行的關鍵指令:\n"@ + (if s.commands.len() == 0 {
            "  (無直接執行的命令)\n"@
        } else {
            command_lines(s.commands)
        }) + (if s.code_snippets.len() == 0 {
            Seq::empty()
        } else {
            "\n📝 程式碼片段:\n"@ + snippet_blocks(s.code_snippets)
        }),
    }
}

/// Appends one `  $ command` line per command to `t`.
fn push_command_lines(t: &mut Vec<char>, cmds: &Vec<String>)
    ensures
        final(t)@ == old(t)@ + command_lines(string_views(cmds@)),
{
    let ghost vs = string_views(cmds@);
    let mut i: usize = 0;
    assert(vs.take(0) =~= Seq::<Seq<char>>::empty());
    while i < cmds.len()
        invariant
            i <= cmds.len(),
            vs == string_views(cmds@),
            t@ == old(t)@ + command_lines(vs.take(i as int)),
        decreases cmds.len() - i,
    {
        let ghost before = t@;
        extend_chars(t, &chars_of("  $ "));
        extend_chars(t, &chars_of(cmds[i].as_str()));
        extend_chars(t, &chars_of("\n"));
        assert(vs.take(i + 1).drop_last() =~= vs.take(i as int));
        assert(t@ =~= old(t)@ + command_lines(vs.take(i + 1)));
        i += 1;
    }
    assert(vs.take(cmds.len() as int) =~= vs);
}

/// Appends one header and code block per snippet to `t`.
fn push_snippet_blocks(t: &mut Vec<char>, snips: &Vec<CodeSnippet>)
    ensures
        final(t)@ == old(t)@ + snippet_blocks(crate::model::snippet_views(snips@)),
{
    let ghost vs = crate::model::snippet_views(snips@);
    let mut i: usize = 0;
    assert(vs.take(0) =~= Seq::<SnippetModel>::empty());
    while i < snips.len()
        invariant
            i <= snips.len(),
            vs == crate::model::snippet_views(snips@),
            t@ == old(t)@ + snippet_blocks(vs.take(i as int)),
        decreases snips.len() - i,
    {
        extend_chars(t, &chars_of("--- ["));
        extend_chars(t, &chars_of(snips[i].language.as_str()));
        extend_chars(t, &chars_of("] ---\n"));
        extend_chars(t, &chars_of(snips[i].code.as_str()));
        extend_chars(t, &chars_of("\n"));
        assert(vs.take(i + 1).drop_last() =~= vs.take(i as int));
        assert(vs.take(i + 1).last() == snips@[i as int]@);
        assert(t@ =~= old(t)@ + snippet_blocks(vs.take(i + 1)));
        i += 1;
    }
    assert(vs.take(snips.len() as int) =~= vs);
}

/// The preview pane for the selected solution among those the filter shows.
pub fn preview_text(solutions: &Vec<Solution>, filter: &str, selected: Option<usize>) -> (r: String)
    ensures
        r@ == preview(
            previewed(solution_views(solutions@), visible(solution_views(solutions@), filter@), selected),
        ),
{
    let shown = visible_indices(solutions, filter);
    let i = match selected {
        Some(i) => i,
        None => 0,
    };
    if i >= shown.len() {
        return string_of(&chars_of("尚無選取的項目"));
    }
    let k = shown[i];
    proof {
        lemma_visible_members(solution_views(solutions@), filter@, solutions@.len() as int);
        assert(visible(solution_views(solutions@), filter@).contains(k as int));
    }
    let sol = &solutions[k];
    assert(previewed(solution_views(solutions@), visible(solution_views(solutions@), filter@), selected) == Some(sol@));
    let mut t = chars_of("📅 時間: ");
    extend_chars(&mut t, &chars_of(sol.formatted_date().as_str()));
    extend_chars(&mut t, &chars_of("\n📂 路徑: "));
    extend_chars(&mut t, &chars_of(sol.project_path.as_str()));
    extend_chars(&mut t, &chars_of("\n\n💡 執行的關鍵指令:\n"));
    if sol.commands.len() == 0 {
        extend_chars(&mut t, &chars_of("  (無直接執行的命令)\n"));
    } else {
        push_command_lines(&mut t, &sol.commands);
    }
    if sol.code_snippets.len() > 0 {
        extend_chars(&mut t, &chars_of("\n📝 程式碼片段:\n"));
        push_snippet_blocks(&mut t, &sol.code_snippets);
    }
    let r = string_of(&t);
    assert(r@ =~= preview(Some(sol@)));
    r
}

/// The first line of the plain text listing.
pub open spec fn text_list_header(count: nat) -> Seq<char> {
    "\n🔍 共找到 "@ + decimal(count) + " 筆歷史對話解法紀錄:\n"@
}

/// The lines of entry number `idx` (counted from 0) of the plain listing:
/// its number, pin mark and request; its date and path; one line per
/// command; an empty line.
pub open spec fn entry_lines(idx: nat, s: SolutionModel) -> Seq<Seq<char>> {
    seq![
        decimal(idx + 1) + ". "@ + (if s.is_pinned { "⭐ "@ } else { Seq::empty() }) + s.prompt_summary,
        "   📅 "@ + date_text(utc_minute_text(s.timestamp)) + " | 📂 "@ + s.project_path,
    ] + s.commands.map_values(|c: Seq<char>| "   💻 $ "@ + c) + seq![Seq::empty()]
}

/// An entry of the plain listing has one line per command, in order, each
/// `   💻 $ ` followed by the command, between its two heading lines and a
/// closing empty line.
pub proof fn entry_lists_every_command(idx: nat, s: SolutionModel)
    ensures
        entry_lines(idx, s).len() == s.commands.len() + 3,
        forall|j: int|
            0 <= j < s.commands.len() ==> #[trigger] entry_lines(idx, s)[j + 2] == "   💻 $ "@
                + s.commands[j],
        entry_lines(idx, s)[s.commands.len() + 2 as int] == Seq::<char>::empty(),
        entry_lines(idx, s)[1] == "   📅 "@ + date_text(utc_minute_text(s.timestamp)) + " | 📂 "@
            + s.project_path,
{
}

/// The plain listing of one solution: the count line, its two heading lines,
/// one line per command in order, and an empty line.
pub proof fn listing_of_one_lists_every_command(s: SolutionModel)
    ensures
        text_list(seq![s]).len() == s.commands.len() + 4,
        forall|j: int|
            0 <= j < s.commands.len() ==> #[trigger] text_list(seq![s])[j + 3] == "   💻 $ "@
                + s.commands[j],
        text_list(seq![s])[s.commands.len() + 3 as int] == Seq::<char>::empty(),
{
    assert(seq![s].drop_last() =~= Seq::<SolutionModel>::empty());
    assert(list_entries(Seq::<SolutionModel>::empty()) == Seq::<Seq<char>>::empty());
    assert(list_entries(seq![s]) =~= entry_lines(0, s));
    let h = seq![text_list_header(1)];
    assert(text_list(seq![s]) == h + entry_lines(0, s));
    entry_lists_every_command(0, s);
    assert forall|j: int| 0 <= j < s.commands.len() implies #[trigger] text_list(seq![s])[j + 3]
        == "   💻 $ "@ + s.commands[j] by {
        assert(text_list(seq![s])[j + 3] == entry_lines(0, s)[j + 2]);
    }
    assert(text_list(seq![s])[s.commands.len() + 3 as int] == entry_lines(0, s)[s.commands.len() + 2 as int]);
}

/// The entry lines of all of `sols`, in order.
pub open spec fn list_entries(sols: Seq<SolutionModel>) -> Seq<Seq<char>>
    decreases sols.len(),
{
    if sols.len() == 0 {
        Seq::empty()
    } else {
        list_entries(sols.drop_last()) + entry_lines((sols.len() - 1) as nat, sols.last())
    }
}

/// The plain text listing, one element per printed line.
pub open spec fn text_list(sols: Seq<SolutionModel>) -> Seq<Seq<char>> {
    seq![text_list_header(sols.len())] + list_entries(sols)
}

/// Appends the lines of entry number `idx` to `lines`.
fn push_entry_lines(lines: &mut Vec<String>, idx: usize, sol: &Solution)
    requires
        idx < usize::MAX,
    ensures
        string_views(final(lines)@) == string_views(old(lines)@) + entry_lines(idx as nat, sol@),
{
    let mut first = decimal_chars(idx + 1);
    extend_chars(&mut first, &chars_of(". "));
    if sol.is_pinned {
        extend_chars(&mut first, &chars_of("⭐ "));
    }
    extend_chars(&mut first, &chars_of(sol.prompt_summary.as_str()));
    let mut second = chars_of("   📅 ");
    extend_chars(&mut second, &chars_of(sol.formatted_date().as_str()));
    extend_chars(&mut second, &chars_of(" | 📂 "));
    extend_chars(&mut second, &chars_of(sol.project_path.as_str()));
    let first_text = string_of(&first);
    let second_text = string_of(&second);
    lines.push(first_text);
    lines.push(second_text);
    let ghost head = string_views(old(lines)@) + seq![first_text@, second_text@];
    assert(string_views(lines@) =~= head);
    let ghost cmds = string_views(sol.commands@);
    let mut i: usize = 0;
    while i < sol.commands.len()
        invariant
            i <= sol.commands.len(),
            cmds == string_views(sol.commands@),
            string_views(lines@) == head + cmds.take(i as int).map_values(
                |c: Seq<char>| "   💻 $ "@ + c,
            ),
        decreases sol.commands.len() - i,
    {
        let mut line = chars_of("   💻 $ ");
        extend_chars(&mut line, &chars_of(sol.commands[i].as_str()));
        let ghost before = string_views(lines@);
        let line_text = string_of(&line);
        lines.push(line_text);
        assert(string_views(lines@) =~= before.push(line_text@));
        assert(cmds.take(i + 1).map_values(|c: Seq<char>| "   💻 $ "@ + c) =~= cmds.take(
            i as int,
        ).map_values(|c: Seq<char>| "   💻 $ "@ + c).push("   💻 $ "@ + cmds[i as int]));
        i += 1;
    }
    let ghost before = string_views(lines@);
    lines.push(String::new());
    assert(string_views(lines@) =~= before.push(Seq::empty()));
    assert(cmds.take(sol.commands.len() as int) =~= cmds);
    assert(string_views(lines@) =~= string_views(old(lines)@) + entry_lines(idx as nat, sol@));
}

/// The plain text listing of `solutions`, one string per printed line.
pub fn text_list_lines(solutions: &Vec<Solution>) -> (r: Vec<String>)
    ensures
        string_views(r@) == text_list(solution_views(solutions@)),
{
    let ghost sols = solution_views(solutions@);
    let mut header = chars_of("\n🔍 共找到 ");
    extend_chars(&mut header, &decimal_chars(solutions.len()));
    extend_chars(&mut header, &chars_of(" 筆歷史對話解法紀錄:\n"));
    let mut lines: Vec<String> = Vec::new();
    lines.push(string_of(&header));
    let mut i: usize = 0;
    assert(sols.take(0) =~= Seq::<SolutionModel>::empty());
    assert(string_views(lines@) =~= seq![text_list_header(sols.len())] + list_entries(sols.take(0)));
    while i < solutions.len()
        invariant
            i <= solutions.len(),
            sols == solution_views(solutions@),
            string_views(lines@) == seq![text_list_header(sols.len())] + list_entries(sols.take(i as int)),
        decreases solutions.len() - i,
    {
        push_entry_lines(&mut lines, i, &solutions[i]);
        assert(sols.take(i + 1).drop_last() =~= sols.take(i as int));
        assert(sols.take(i + 1).last() == solutions@[i as int]@);
        i += 1;
    }
    assert(sols.take(solutions.len() as int) =~= sols);
    lines
}

/// `c` with ASCII upper-case letters made lower case.
pub open spec fn fold_ascii(c: char) -> char {
    if 65 <= (c as u32) <= 90 {
        ((c as u32) + 32) as char
    } else {
        c
    }
}

/// Whether the characters of `f` occur in `s` in order, not necessarily next
/// to each other, ignoring ASCII case.
pub open spec fn fuzzy_match(f: Seq<char>, s: Seq<char>) -> bool
    decreases s.len(),
{
    if f.len() == 0 {
        true
    } else if s.len() == 0 {
        false
    } else if fold_ascii(f[0]) == fold_ascii(s[0]) {
        fuzzy_match(f.drop_first(), s.drop_first())
    } else {
        fuzzy_match(f, s.drop_first())
    }
}

/// The indices, in order, of the first `n` solutions whose request fuzzy-matches the filter.
pub open spec fn visible_upto(sols: Seq<SolutionModel>, filter: Seq<char>, n: int) -> Seq<int>
    decreases n,
{
    if n <= 0 {
        Seq::empty()
    } else {
        visible_upto(sols, filter, n - 1) + (if fuzzy_match(filter, sols[n - 1].prompt_summary) {
            seq![n - 1]
        } else {
            Seq::empty()
        })
    }
}

/// The indices, in order, of the solutions the browser shows for a filter.
pub open spec fn visible(sols: Seq<SolutionModel>, filter: Seq<char>) -> Seq<int> {
    visible_upto(sols, filter, sols.len() as int)
}

/// What the first `n` visible indices are: the indices below `n` of the
/// solutions that match, each in range.
pub proof fn lemma_visible_members(sols: Seq<SolutionModel>, filter: Seq<char>, n: int)
    requires
        n <= sols.len(),
    ensures
        forall|i: int|
            visible_upto(sols, filter, n).contains(i) <==> 0 <= i < n && fuzzy_match(
                filter,
                sols[i].prompt_summary,
            ),
        forall|j: int|
            0 <= j < visible_upto(sols, filter, n).len() ==> 0 <= #[trigger] visible_upto(
                sols,
                filter,
                n,
            )[j] < n,
    decreases n,
{
    if n > 0 {
        lemma_visible_members(sols, filter, n - 1);
        let pre = visible_upto(sols, filter, n - 1);
        let v = visible_upto(sols, filter, n);
        assert forall|i: int| v.contains(i) <==> 0 <= i < n && fuzzy_match(filter, sols[i].prompt_summary) by {
            if v.contains(i) {
                let j = choose|j: int| 0 <= j < v.len() && v[j] == i;
                if j < pre.len() {
                    assert(pre[j] == i);
                    assert(pre.contains(i));
                }
            }
            if 0 <= i < n && fuzzy_match(filter, sols[i].prompt_summary) {
                if i < n - 1 {
                    assert(pre.contains(i));
                    let j = choose|j: int| 0 <= j < pre.len() && pre[j] == i;
                    assert(v[j] == i);
                } else {
                    assert(v[v.len() - 1] == i);
                }
            }
        }
        assert forall|j: int| 0 <= j < v.len() implies 0 <= #[trigger] v[j] < n by {
            if j < pre.len() {
                assert(v[j] == pre[j]);
            }
        }
    }
}

proof fn lemma_fuzzy_prefix(f: Seq<char>, g: Seq<char>, s: Seq<char>)
    ensures
        fuzzy_match(f + g, s) ==> fuzzy_match(f, s),
    decreases s.len(),
{
    if f.len() > 0 && s.len() > 0 {
        assert((f + g)[0] == f[0]);
        assert((f + g).drop_first() =~= f.drop_first() + g);
        lemma_fuzzy_prefix(f.drop_first(), g, s.drop_first());
        lemma_fuzzy_prefix(f, g, s.drop_first());
    }
}

/// Typing one more letter never widens the browser's list: every solution
/// shown for the longer filter is shown for the shorter one, and every shown
/// solution matches its filter.
pub proof fn typing_narrows_the_list(sols: Seq<SolutionModel>, filter: Seq<char>, c: char)
    ensures
        forall|i: int| visible(sols, filter.push(c)).contains(i) ==> visible(sols, filter).contains(i),
        forall|i: int|
            visible(sols, filter).contains(i) ==> fuzzy_match(filter, #[trigger] sols[i].prompt_summary),
{
    lemma_visible_members(sols, filter, sols.len() as int);
    lemma_visible_members(sols, filter.push(c), sols.len() as int);
    assert forall|i: int| visible(sols, filter.push(c)).contains(i) implies visible(sols, filter).contains(i) by {
        assert(filter.push(c) =~= filter + seq![c]);
        lemma_fuzzy_prefix(filter, seq![c], sols[i].prompt_summary);
    }
}

/// `c` with ASCII upper-case letters made lower case.
pub fn fold_ascii_char(c: char) -> (r: char)
    ensures
        r == fold_ascii(c),
{
    if 'A' <= c && c <= 'Z' {
        ((c as u8) + 32) as char
    } else {
        c
    }
}

/// Whether the characters of `f` occur in `s` in order, ignoring ASCII case.
pub fn fuzzy_matches(f: &Vec<char>, s: &Vec<char>) -> (r: bool)
    ensures
        r == fuzzy_match(f@, s@),
{
    let mut i: usize = 0;
    let mut j: usize = 0;
    assert(f@.skip(0) =~= f@);
    assert(s@.skip(0) =~= s@);
    while j < s.len()
        invariant
            i <= f.len(),
            j <= s.len(),
            fuzzy_match(f@, s@) == fuzzy_match(f@.skip(i as int), s@.skip(j as int)),
        decreases s.len() - j,
    {
        assert(s@.skip(j as int).drop_first() =~= s@.skip(j + 1));
        assert(s@.skip(j as int)[0] == s@[j as int]);
        if i < f.len() && fold_ascii_char(f[i]) == fold_ascii_char(s[j]) {
            assert(f@.skip(i as int).drop_first() =~= f@.skip(i + 1));
            assert(f@.skip(i as int)[0] == f@[i as int]);
            i += 1;
        }
        j += 1;
    }
    assert(s@.skip(j as int).len() == 0);
    i == f.len()
}

/// The views of a sequence of indices.
pub open spec fn index_views(v: Seq<usize>) -> Seq<int> {
    v.map_values(|i: usize| i as int)
}

/// The indices, in order, of the solutions the browser shows for a filter.
pub fn visible_indices(solutions: &Vec<Solution>, filter: &str) -> (r: Vec<usize>)
    ensures
        index_views(r@) == visible(solution_views(solutions@), filter@),
{
    let f = chars_of(filter);
    let ghost sols = solution_views(solutions@);
    let mut r: Vec<usize> = Vec::new();
    let mut n: usize = 0;
    assert(index_views(r@) =~= Seq::<int>::empty());
    while n < solutions.len()
        invariant
            n <= solutions.len(),
            f@ == filter@,
            sols == solution_views(solutions@),
            index_views(r@) == visible_upto(sols, filter@, n as int),
        decreases solutions.len() - n,
    {
        let ghost before = index_views(r@);
        assert(sols[n as int].prompt_summary == solutions@[n as int].prompt_summary@);
        if fuzzy_matches(&f, &chars_of(solutions[n].prompt_summary.as_str())) {
            r.push(n);
            assert(index_views(r@) =~= before + seq![n as int]);
        } else {
            assert(index_views(r@) =~= before + Seq::<int>::empty());
        }
        n += 1;
    }
    r
}

/// A key press in the browser.
#[derive(Debug, Clone, Copy, PartialEq, Eq)]
pub enum TuiKey {
    Char(char),
    Backspace,
    Esc,
    Up,
    Down,
    Enter,
    Other,
}

/// What the browser hands back when it closes with a choice.
#[derive(Debug, Clone, PartialEq, Eq)]
pub enum UserAction {
    RunCommand(String),
    CopyCommand(String),
    PrintCommand(String),
}

/// The browser's state: the search filter typed so far and the selected
/// position in the list it shows.
#[derive(Debug, Clone, PartialEq, Eq)]
pub struct BrowserState {
    pub filter: String,
    pub selected: Option<usize>,
}

/// The browser's answer to a key: go on in a new state, or close.
#[derive(Debug, Clone, PartialEq, Eq)]
pub enum TuiStep {
    Continue(BrowserState),
    Exit(Option<UserAction>),
}

/// The selection after moving down among `len` items: the next item, the
/// first after the last, the first where nothing was selected.
pub open spec fn next_down(selected: Option<usize>, len: nat) -> int {
    match selected {
        Some(i) => if i >= len - 1 {
            0
        } else {
            i + 1
        },
        None => 0,
    }
}

/// The selection after moving up among `len` items: the previous item, the
/// last before the first, the first where nothing was selected.
pub open spec fn next_up(selected: Option<usize>, len: nat) -> int {
    match selected {
        Some(i) => if i == 0 {
            len - 1
        } else {
            i - 1
        },
        None => 0,
    }
}

/// Moving the selection up or down in a non-empty list, from an item of the
/// list or from no selection, lands on an item of the list.
pub proof fn navigation_stays_in_list(selected: Option<usize>, len: nat)
    requires
        len > 0,
        selected matches Some(i) ==> i < len,
    ensures
        0 <= next_down(selected, len) < len,
        0 <= next_up(selected, len) < len,
{
}

/// Moving down and then up returns to the item one started from, and so does
/// moving up and then down; past either end the selection wraps around.
pub proof fn up_undoes_down(i: usize, len: nat)
    requires
        i < len <= usize::MAX,
    ensures
        next_up(Some(next_down(Some(i), len) as usize), len) == i,
        next_down(Some(next_up(Some(i), len) as usize), len) == i,
        i == len - 1 ==> next_down(Some(i), len) == 0,
        i == 0 ==> next_up(Some(i), len) == len - 1,
{
}

/// The selection in a freshly filtered list of `n` items: its first item, if any.
pub open spec fn first_selection(n: nat) -> Option<usize> {
    if n > 0 {
        Some(0usize)
    } else {
        None
    }
}

/// The selection after moving with `step` in a list of `n` items: none in an
/// empty list.
pub open spec fn moved(n: nat, to: int) -> Option<usize> {
    if n > 0 {
        Some(to as usize)
    } else {
        None
    }
}

/// The first command of the selected solution among those shown, where there is one.
pub open spec fn selected_command(sols: Seq<SolutionModel>, shown: Seq<int>, selected: Option<usize>) -> Option<Seq<char>> {
    match selected {
        Some(i) => if i < shown.len() && sols[shown[i as int]].commands.len() > 0 {
            Some(sols[shown[i as int]].commands[0])
        } else {
            None
        },
        None => None,
    }
}

/// Whether the browser goes on with this filter and selection.
pub open spec fn continues_with(r: TuiStep, filter: Seq<char>, selected: Option<usize>) -> bool {
    match r {
        TuiStep::Continue(st) => st.filter@ == filter && st.selected == selected,
        TuiStep::Exit(_) => false,
    }
}

/// A browser state whose selection, if any, is one of the solutions it shows.
pub open spec fn browser_ok(sols: Seq<SolutionModel>, st: BrowserState) -> bool {
    st.selected matches Some(i) ==> i < visible(sols, st.filter@).len()
}

/// The browser's answer to a key press: Esc closes; Up and Down move the
/// selection through the shown list, wrapping at its ends; Enter closes and
/// runs the selected solution's first command; `c` closes and copies it;
/// Backspace and any other typed character edit the fuzzy-search filter,
/// which narrows the list and selects its first item (Backspace on an empty
/// filter changes nothing).
pub fn tui_step(solutions: &Vec<Solution>, state: &BrowserState, key: TuiKey) -> (r: TuiStep)
    ensures
        ({
            let sols = solution_views(solutions@);
            let shown = visible(sols, state.filter@);
            let n = shown.len();
            &&& key == TuiKey::Esc ==> r == TuiStep::Exit(None)
            &&& key == TuiKey::Down ==> continues_with(r, state.filter@, moved(n, next_down(state.selected, n)))
            &&& key == TuiKey::Up ==> continues_with(r, state.filter@, moved(n, next_up(state.selected, n)))
            &&& key == TuiKey::Enter ==> match selected_command(sols, shown, state.selected) {
                Some(c) => (r matches TuiStep::Exit(Some(UserAction::RunCommand(x))) && x@ == c),
                None => r == TuiStep::Exit(None),
            }
            &&& key == TuiKey::Char('c') ==> match selected_command(sols, shown, state.selected) {
                Some(c) => (r matches TuiStep::Exit(Some(UserAction::CopyCommand(x))) && x@ == c),
                None => continues_with(r, state.filter@, state.selected),
            }
            &&& match key {
                TuiKey::Char(ch) => ch != 'c' ==> continues_with(
                    r,
                    state.filter@.push(ch),
                    first_selection(visible(sols, state.filter@.push(ch)).len()),
                ),
                _ => true,
            }
            &&& key == TuiKey::Backspace && state.filter@.len() > 0 ==> continues_with(
                r,
                state.filter@.drop_last(),
                first_selection(visible(sols, state.filter@.drop_last()).len()),
            )
            &&& key == TuiKey::Backspace && state.filter@.len() == 0 ==> continues_with(
                r,
                state.filter@,
                state.selected,
            )
            &&& key == TuiKey::Other ==> continues_with(r, state.filter@, state.selected)
            &&& browser_ok(sols, *state) ==> match r {
                TuiStep::Continue(st) => browser_ok(sols, st),
                TuiStep::Exit(_) => true,
            }
        }),
{
    let ghost sols = solution_views(solutions@);
    let shown = visible_indices(solutions, state.filter.as_str());
    let n = shown.len();
    proof {
        lemma_visible_members(sols, state.filter@, solutions@.len() as int);
        assert forall|j: int| 0 <= j < shown@.len() implies #[trigger] shown@[j] < solutions@.len() by {
            assert(index_views(shown@)[j] == shown@[j] as int);
        }
    }
    match key {
        TuiKey::Esc => TuiStep::Exit(None),
        TuiKey::Down => {
            let selected = if n == 0 {
                None
            } else {
                match state.selected {
                    Some(i) => {
                        if i >= n - 1 {
                            Some(0)
                        } else {
                            Some(i + 1)
                        }
                    },
                    None => Some(0),
                }
            };
            TuiStep::Continue(BrowserState { filter: state.filter.clone(), selected })
        },
        TuiKey::Up => {
            let selected = if n == 0 {
                None
            } else {
                match state.selected {
                    Some(i) => {
                        if i == 0 {
                            Some(n - 1)
                        } else {
                            Some(i - 1)
                        }
                    },
                    None => Some(0),
                }
            };
            TuiStep::Continue(BrowserState { filter: state.filter.clone(), selected })
        },
        TuiKey::Enter => {
            match selected_first_command(solutions, &shown, state.selected) {
                Some(cmd) => TuiStep::Exit(Some(UserAction::RunCommand(cmd))),
                None => TuiStep::Exit(None),
            }
        },
        TuiKey::Char('c') => {
            match selected_first_command(solutions, &shown, state.selected) {
                Some(cmd) => TuiStep::Exit(Some(UserAction::CopyCommand(cmd))),
                None => TuiStep::Continue(
                    BrowserState { filter: state.filter.clone(), selected: state.selected },
                ),
            }
        },
        TuiKey::Char(ch) => {
            let mut f = chars_of(state.filter.as_str());
            f.push(ch);
            let filter = string_of(&f);
            refiltered(solutions, filter)
        },
        TuiKey::Backspace => {
            let mut f = chars_of(state.filter.as_str());
            if f.len() == 0 {
                return TuiStep::Continue(
                    BrowserState { filter: state.filter.clone(), selected: state.selected },
                );
            }
            f.pop();
            assert(f@ =~= state.filter@.drop_last());
            let filter = string_of(&f);
            refiltered(solutions, filter)
        },
        TuiKey::Other => TuiStep::Continue(
            BrowserState { filter: state.filter.clone(), selected: state.selected },
        ),
    }
}

/// The browser state for a new filter, with the first shown item selected.
fn refiltered(solutions: &Vec<Solution>, filter: String) -> (r: TuiStep)
    ensures
        continues_with(r, filter@, first_selection(visible(solution_views(solutions@), filter@).len())),
{
    let n = visible_indices(solutions, filter.as_str()).len();
    let selected = if n > 0 {
        Some(0)
    } else {
        None
    };
    TuiStep::Continue(BrowserState { filter, selected })
}

/// The first command of the selected solution among those shown.
fn selected_first_command(solutions: &Vec<Solution>, shown: &Vec<usize>, selected: Option<usize>) -> (r: Option<String>)
    requires
        forall|j: int| 0 <= j < shown@.len() ==> #[trigger] shown@[j] < solutions@.len(),
    ensures
        match r {
            Some(c) => selected_command(solution_views(solutions@), index_views(shown@), selected) == Some(c@),
            None => selected_command(solution_views(solutions@), index_views(shown@), selected) is None,
        },
{
    match selected {
        Some(i) => {
            if i < shown.len() {
                let k = shown[i];
                assert(index_views(shown@)[i as int] == k as int);
                let sol = &solutions[k];
                if sol.commands.len() > 0 {
                    assert(solution_views(solutions@)[k as int].commands[0] == sol.commands@[0]@);
                    return Some(sol.commands[0].clone());
                }
            }
            None
        },
        None => None,
    }
}

/// How the browser session ends.
#[derive(Debug, Clone, PartialEq, Eq)]
pub enum AfterBrowser {
    /// The browser closed at once with no choice: list the solutions as text.
    ShowTextList,
    /// Run this command in the shell.
    Run(String),
    /// Copy this command to the clipboard and say so.
    Copy(String),
    /// Print this command.
    Print(String),
    /// Nothing more to do.
    Done,
}

/// What follows the browser, given how long it stayed open and what was chosen.
pub fn after_browser(elapsed_millis: u128, action: Option<UserAction>) -> (r: AfterBrowser)
    ensures
        elapsed_millis < 100 && action is None ==> r == AfterBrowser::ShowTextList,
        elapsed_millis >= 100 && action is None ==> r == AfterBrowser::Done,
        action matches Some(UserAction::RunCommand(c)) ==> r == AfterBrowser::Run(c),
        action matches Some(UserAction::CopyCommand(c)) ==> r == AfterBrowser::Copy(c),
        action matches Some(UserAction::PrintCommand(c)) ==> r == AfterBrowser::Print(c),
{
    match action {
        None => if elapsed_millis < 100 {
            AfterBrowser::ShowTextList
        } else {
            AfterBrowser::Done
        },
        Some(UserAction::RunCommand(c)) => AfterBrowser::Run(c),
        Some(UserAction::CopyCommand(c)) => AfterBrowser::Copy(c),
        Some(UserAction::PrintCommand(c)) => AfterBrowser::Print(c),
    }
}

/// How results are first shown.
#[derive(Debug, Clone, Copy, PartialEq, Eq)]
pub enum StartMode {
    /// There is nothing to show: say so.
    NoResults,
    /// List the solutions as plain text.
    TextList,
    /// Open the interactive browser.
    Interactive,
}

/// How `count` results are first shown.
pub fn start_mode(count: usize, text_only: bool) -> (r: StartMode)
    ensures
        count == 0 ==> r == StartMode::NoResults,
        count > 0 && text_only ==> r == StartMode::TextList,
        count > 0 && !text_only ==> r == StartMode::Interactive,
{
    if count == 0 {
        StartMode::NoResults
    } else if text_only {
        StartMode::TextList
    } else {
        StartMode::Interactive
    }
}

} // verus!
