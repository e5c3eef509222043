use cpl::model::{date_or_unknown, Solution};

fn at(timestamp: i64) -> Solution {
    Solution {
        id: 1,
        prompt_summary: "p".to_string(),
        commands: vec![],
        code_snippets: vec![],
        project_path: "/".to_string(),
        git_repo: None,
        is_pinned: false,
        timestamp,
    }
}

#[test]
fn formatted_dates() {
    assert_eq!(at(0).formatted_date(), "1970-01-01 00:00");
    assert_eq!(at(1700000000).formatted_date(), "2023-11-14 22:13");
    assert_eq!(at(-60).formatted_date(), "1969-12-31 23:59");
}

#[test]
fn formatted_date_out_of_range_is_unknown() {
    assert_eq!(at(i64::MAX).formatted_date(), "Unknown Date");
}

#[test]
fn date_fallback() {
    assert_eq!(date_or_unknown(None), "Unknown Date");
    assert_eq!(date_or_unknown(Some("2020-01-01 00:00".to_string())), "2020-01-01 00:00");
}
