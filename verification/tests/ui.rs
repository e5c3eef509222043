use cpl::model::{CodeSnippet, Solution};
use cpl::ui::{
    after_browser, browser_header_text, decimal_chars, fuzzy_matches, list_item_title,
    preview_text, start_mode, text_list_lines, tui_step, visible_indices, AfterBrowser,
    BrowserState, StartMode, TuiKey, TuiStep, UserAction,
};

fn s(t: &str) -> String {
    t.to_string()
}

fn sol(prompt: &str, commands: Vec<&str>, pinned: bool) -> Solution {
    Solution {
        id: 1,
        prompt_summary: s(prompt),
        commands: commands.into_iter().map(s).collect(),
        code_snippets: vec![],
        project_path: s("/work"),
        git_repo: None,
        is_pinned: pinned,
        timestamp: 0,
    }
}

#[test]
fn decimal_digits() {
    let d = |n: usize| decimal_chars(n).into_iter().collect::<String>();
    assert_eq!(d(0), "0");
    assert_eq!(d(7), "7");
    assert_eq!(d(10), "10");
    assert_eq!(d(1234567), "1234567");
}

#[test]
fn list_titles() {
    assert_eq!(list_item_title(&sol("ls", vec![], true)), "⭐ ls");
    assert_eq!(list_item_title(&sol("ls", vec![], false)), "  ls");
}

#[test]
fn browser_header() {
    assert_eq!(
        browser_header_text(12, ""),
        " 🔍 cpl recall - AI 解法與指令記憶庫 (共 12 筆解法, Enter: 執行, c: 複製, Esc: 離開)"
    );
    assert_eq!(
        browser_header_text(1, "dk"),
        " 🔍 cpl recall - AI 解法與指令記憶庫 (共 1 筆解法, Enter: 執行, c: 複製, Esc: 離開)  搜尋: dk"
    );
}

#[test]
fn preview_of_selected_solution() {
    let mut a = sol("a", vec!["ls", "pwd"], false);
    a.code_snippets = vec![CodeSnippet { language: s("py"), code: s("x = 1") }];
    let b = sol("b", vec![], false);
    let list = vec![a, b];
    assert_eq!(
        preview_text(&list, "", None),
        "📅 時間: 1970-01-01 00:00\n📂 路徑: /work\n\n💡 執行的關鍵指令:\n  $ ls\n  $ pwd\n\n📝 程式碼片段:\n--- [py] ---\nx = 1\n"
    );
    assert_eq!(
        preview_text(&list, "", Some(1)),
        "📅 時間: 1970-01-01 00:00\n📂 路徑: /work\n\n💡 執行的關鍵指令:\n  (無直接執行的命令)\n"
    );
    assert_eq!(preview_text(&list, "", Some(2)), "尚無選取的項目");
    assert_eq!(preview_text(&vec![], "", None), "尚無選取的項目");
}

#[test]
fn text_listing() {
    let list = vec![sol("compress png", vec!["pngquant a.png"], true), sol("docker", vec![], false)];
    assert_eq!(
        text_list_lines(&list),
        vec![
            s("\n🔍 共找到 2 筆歷史對話解法紀錄:\n"),
            s("1. ⭐ compress png"),
            s("   📅 1970-01-01 00:00 | 📂 /work"),
            s("   💻 $ pngquant a.png"),
            s(""),
            s("2. docker"),
            s("   📅 1970-01-01 00:00 | 📂 /work"),
            s(""),
        ]
    );
}

fn st(filter: &str, selected: Option<usize>) -> BrowserState {
    BrowserState { filter: s(filter), selected }
}

#[test]
fn keys_move_and_wrap() {
    let list = vec![sol("a", vec![], false), sol("b", vec![], false), sol("c", vec![], false)];
    assert_eq!(tui_step(&list, &st("", Some(0)), TuiKey::Down), TuiStep::Continue(st("", Some(1))));
    assert_eq!(tui_step(&list, &st("", Some(2)), TuiKey::Down), TuiStep::Continue(st("", Some(0))));
    assert_eq!(tui_step(&list, &st("", Some(0)), TuiKey::Up), TuiStep::Continue(st("", Some(2))));
    assert_eq!(tui_step(&list, &st("", Some(2)), TuiKey::Up), TuiStep::Continue(st("", Some(1))));
    assert_eq!(tui_step(&list, &st("", None), TuiKey::Down), TuiStep::Continue(st("", Some(0))));
    assert_eq!(tui_step(&list, &st("", None), TuiKey::Up), TuiStep::Continue(st("", Some(0))));
    assert_eq!(tui_step(&list, &st("", Some(1)), TuiKey::Other), TuiStep::Continue(st("", Some(1))));
    assert_eq!(tui_step(&list, &st("zz", Some(0)), TuiKey::Down), TuiStep::Continue(st("zz", None)));
}

#[test]
fn keys_quit_run_and_copy() {
    let list = vec![sol("a", vec!["ls -la", "pwd"], false), sol("b", vec![], false)];
    assert_eq!(tui_step(&list, &st("", Some(0)), TuiKey::Esc), TuiStep::Exit(None));
    assert_eq!(
        tui_step(&list, &st("", Some(0)), TuiKey::Enter),
        TuiStep::Exit(Some(UserAction::RunCommand(s("ls -la"))))
    );
    assert_eq!(
        tui_step(&list, &st("", Some(0)), TuiKey::Char('c')),
        TuiStep::Exit(Some(UserAction::CopyCommand(s("ls -la"))))
    );
    assert_eq!(tui_step(&list, &st("", Some(1)), TuiKey::Enter), TuiStep::Exit(None));
    assert_eq!(tui_step(&list, &st("", Some(1)), TuiKey::Char('c')), TuiStep::Continue(st("", Some(1))));
    assert_eq!(tui_step(&list, &st("", None), TuiKey::Enter), TuiStep::Exit(None));
    assert_eq!(tui_step(&list, &st("", Some(9)), TuiKey::Enter), TuiStep::Exit(None));
}

#[test]
fn typing_filters_the_list() {
    let list = vec![
        sol("compress png", vec!["pngquant"], false),
        sol("docker host", vec!["docker ps"], false),
        sol("Docker Compose up", vec!["docker compose up"], false),
    ];
    let step = tui_step(&list, &st("", Some(0)), TuiKey::Char('d'));
    assert_eq!(step, TuiStep::Continue(st("d", Some(0))));
    assert_eq!(visible_indices(&list, "d"), vec![1, 2]);
    let step = tui_step(&list, &st("d", Some(1)), TuiKey::Char('U'));
    assert_eq!(step, TuiStep::Continue(st("dU", Some(0))));
    assert_eq!(visible_indices(&list, "dU"), vec![2]);
    assert_eq!(
        tui_step(&list, &st("dU", Some(0)), TuiKey::Enter),
        TuiStep::Exit(Some(UserAction::RunCommand(s("docker compose up"))))
    );
    assert_eq!(tui_step(&list, &st("dU", Some(0)), TuiKey::Backspace), TuiStep::Continue(st("d", Some(0))));
    assert_eq!(tui_step(&list, &st("", None), TuiKey::Backspace), TuiStep::Continue(st("", None)));
    assert_eq!(tui_step(&list, &st("", Some(2)), TuiKey::Backspace), TuiStep::Continue(st("", Some(2))));
    assert_eq!(tui_step(&list, &st("x", Some(0)), TuiKey::Char('q')), TuiStep::Continue(st("xq", None)));
    assert_eq!(preview_text(&list, "dU", Some(0)), preview_text(&vec![list[2].clone()], "", Some(0)));
}

#[test]
fn fuzzy_matching() {
    let m = |f: &str, t: &str| fuzzy_matches(&f.chars().collect(), &t.chars().collect());
    assert!(m("", "anything"));
    assert!(m("cpng", "compress png"));
    assert!(m("CPNG", "compress png"));
    assert!(!m("pngc", "compress png"));
    assert!(!m("x", ""));
}

#[test]
fn typing_narrows_the_list_law_example() {
    let list = vec![sol("abc", vec![], false), sol("ab", vec![], false), sol("xa", vec![], false)];
    let wide = visible_indices(&list, "a");
    let narrow = visible_indices(&list, "ab");
    assert_eq!(wide, vec![0, 1, 2]);
    assert_eq!(narrow, vec![0, 1]);
    assert!(narrow.iter().all(|i| wide.contains(i)));
}

#[test]
fn up_undoes_down_law_example() {
    let list = vec![sol("a", vec![], false), sol("b", vec![], false), sol("c", vec![], false)];
    for i in 0..3 {
        let TuiStep::Continue(d) = tui_step(&list, &st("", Some(i)), TuiKey::Down) else { panic!() };
        assert!(d.selected.unwrap() < 3);
        assert_eq!(tui_step(&list, &d, TuiKey::Up), TuiStep::Continue(st("", Some(i))));
        let TuiStep::Continue(u) = tui_step(&list, &st("", Some(i)), TuiKey::Up) else { panic!() };
        assert!(u.selected.unwrap() < 3);
        assert_eq!(tui_step(&list, &u, TuiKey::Down), TuiStep::Continue(st("", Some(i))));
    }
}

#[test]
fn after_the_browser() {
    assert_eq!(after_browser(50, None), AfterBrowser::ShowTextList);
    assert_eq!(after_browser(100, None), AfterBrowser::Done);
    assert_eq!(after_browser(5, Some(UserAction::CopyCommand(s("ls")))), AfterBrowser::Copy(s("ls")));
    assert_eq!(after_browser(5, Some(UserAction::RunCommand(s("ls")))), AfterBrowser::Run(s("ls")));
    assert_eq!(after_browser(500, Some(UserAction::PrintCommand(s("ls")))), AfterBrowser::Print(s("ls")));
}

#[test]
fn start_modes() {
    assert_eq!(start_mode(0, false), StartMode::NoResults);
    assert_eq!(start_mode(0, true), StartMode::NoResults);
    assert_eq!(start_mode(3, true), StartMode::TextList);
    assert_eq!(start_mode(3, false), StartMode::Interactive);
}
