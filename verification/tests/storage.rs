use cpl::json::{get_member, get_str, JsonValue};
use cpl::model::{CodeSnippet, Solution};
use cpl::storage::{
    encode_commands, fts_query_text, load_solution, search_query, solution_from_row, solution_row,
    toggle_pin_value, words, SolutionRow,
};

fn s(t: &str) -> String {
    t.to_string()
}

const BASE: &str = "SELECT id, prompt_summary, commands, code_snippets, project_path, git_repo, is_pinned, timestamp FROM solutions WHERE 1=1";
const ORDER: &str = " ORDER BY timestamp DESC LIMIT 100";

fn sample() -> Solution {
    Solution {
        id: 7,
        prompt_summary: s("compress png"),
        commands: vec![s("pngquant \"a b.png\""), s("C:\\tools\\x.exe")],
        code_snippets: vec![CodeSnippet { language: s("python"), code: s("print('ok')\n\ttab") }],
        project_path: s("/work"),
        git_repo: Some(s("git@host:r.git")),
        is_pinned: true,
        timestamp: 1700000000,
    }
}

#[test]
fn search_without_filters() {
    let q = search_query(None, None, false);
    assert_eq!(q.sql, format!("{}{}", BASE, ORDER));
    assert!(q.params.is_empty());
}

#[test]
fn search_with_all_filters() {
    let q = search_query(Some("  docker  "), Some("/work"), true);
    assert_eq!(
        q.sql,
        format!(
            "{} AND is_pinned = 1 AND project_path = ? AND id IN (SELECT rowid FROM solutions_fts WHERE solutions_fts MATCH ?){}",
            BASE, ORDER
        )
    );
    assert_eq!(q.params, vec![s("/work"), s("\"docker\"*")]);
}

#[test]
fn search_words_in_any_order() {
    let q = search_query(Some("png  compress"), None, false);
    assert_eq!(
        q.sql,
        format!("{} AND id IN (SELECT rowid FROM solutions_fts WHERE solutions_fts MATCH ?){}", BASE, ORDER)
    );
    assert_eq!(q.params, vec![s("\"png\"* \"compress\"*")]);
}

#[test]
fn fts_terms_are_quoted() {
    assert_eq!(fts_query_text("say \"hi\" NOT-x"), "\"say\"* \"\"\"hi\"\"\"* \"NOT-x\"*");
    assert_eq!(fts_query_text(" \t "), "");
    let w = words(&" a\u{3000}bc  d ".chars().collect());
    assert_eq!(w, vec![vec!['a'], vec!['b', 'c'], vec!['d']]);
}

#[test]
fn search_blank_query_is_no_filter() {
    let q = search_query(Some(" \t "), None, false);
    assert_eq!(q.sql, format!("{}{}", BASE, ORDER));
    assert!(q.params.is_empty());
}

#[test]
fn search_placeholders_match_params_law_example() {
    for (query, path, pinned) in [
        (Some("x y"), Some("/p"), true),
        (Some("x"), None, false),
        (None, Some("/p"), false),
        (Some(" "), Some("/p"), true),
    ] {
        let q = search_query(query, path, pinned);
        assert_eq!(q.sql.matches('?').count(), q.params.len());
    }
}

#[test]
fn encoded_commands_match_serde_json() {
    let sol = sample();
    let commands = encode_commands(&sol.commands);
    assert_eq!(commands, serde_json::to_string(&sol.commands).unwrap());
    assert_eq!(commands, "[\"pngquant \\\"a b.png\\\"\",\"C:\\\\tools\\\\x.exe\"]");
    assert_eq!(encode_commands(&vec![s("a\u{1}\n\u{7f}é")]), "[\"a\\u0001\\n\u{7f}é\"]");
    assert_eq!(encode_commands(&vec![]), "[]");
}

#[test]
fn row_of_a_solution() {
    let sol = sample();
    let row = solution_row(&sol, s("[]"));
    assert_eq!(row.id, 7);
    assert_eq!(row.prompt_summary, "compress png");
    assert_eq!(row.code_snippets_json, "[]");
    assert_eq!(row.is_pinned, 1);
    assert_eq!(row.git_repo, Some(s("git@host:r.git")));
    assert_eq!(row.timestamp, 1700000000);
    let unpinned = Solution { is_pinned: false, ..sol };
    assert_eq!(solution_row(&unpinned, s("[]")).is_pinned, 0);
}

#[test]
fn stored_row_reads_back_law_example() {
    let sol = sample();
    let row = solution_row(&sol, s("ignored here"));
    let back = solution_from_row(row.clone(), Some(sol.commands.clone()), Some(sol.code_snippets.clone()));
    assert_eq!(back, sol);
    let loaded = load_solution(row, Some(sol.code_snippets.clone()));
    assert_eq!(loaded, sol);
}

#[test]
fn undecodable_lists_read_as_empty() {
    let row = SolutionRow {
        id: 3,
        prompt_summary: s("p"),
        commands_json: s("not json"),
        code_snippets_json: s("[]"),
        project_path: s("/q"),
        git_repo: None,
        is_pinned: 5,
        timestamp: -1,
    };
    let sol = load_solution(row, None);
    assert!(sol.commands.is_empty());
    assert!(sol.code_snippets.is_empty());
    assert!(sol.is_pinned);
    assert_eq!(sol.timestamp, -1);
}

#[test]
fn toggle_pin_values() {
    assert_eq!(toggle_pin_value(0), (1, true));
    assert_eq!(toggle_pin_value(1), (0, false));
    assert_eq!(toggle_pin_value(7), (0, false));
}

#[test]
fn toggle_flips_pin_law_example() {
    for current in [0, 1, 2, -4] {
        let (next, _) = toggle_pin_value(current);
        assert_eq!(next != 0, current == 0);
        let (twice, _) = toggle_pin_value(next);
        assert_eq!(twice, if current != 0 { 1 } else { 0 });
    }
}

#[test]
fn json_documents() {
    let v = JsonValue::Object(vec![
        (s("a"), JsonValue::Str(s("x"))),
        (s("b"), JsonValue::Array(vec![JsonValue::Number(s("1")), JsonValue::Bool(true), JsonValue::Null])),
    ]);
    assert_eq!(get_str(&v, &s("a")), Some(&s("x")));
    assert_eq!(
        get_member(&v, &s("b")),
        Some(&JsonValue::Array(vec![JsonValue::Number(s("1")), JsonValue::Bool(true), JsonValue::Null]))
    );
    assert_eq!(get_member(&v, &s("c")), None);
    assert_eq!(get_str(&v, &s("b")), None);
    assert_eq!(get_member(&JsonValue::Array(vec![]), &s("a")), None);
}
