use cpl::cli::{startup_plan, Cli, MainAction, StartupPlan};

fn cli(query: Option<&str>, reindex: bool, version: bool) -> Cli {
    Cli { query: query.map(|q| q.to_string()), text: false, reindex, version }
}

#[test]
fn plans() {
    assert_eq!(
        startup_plan(&cli(Some("compress png"), false, false), false),
        StartupPlan { clear_index: false, scan: false, action: MainAction::Lookup("compress png".to_string()) }
    );
    assert_eq!(
        startup_plan(&cli(Some("  "), false, false), true),
        StartupPlan { clear_index: false, scan: true, action: MainAction::Browse }
    );
    assert_eq!(
        startup_plan(&cli(None, true, false), false),
        StartupPlan { clear_index: true, scan: true, action: MainAction::Browse }
    );
    assert_eq!(
        startup_plan(&cli(Some("x"), true, true), false),
        StartupPlan { clear_index: true, scan: true, action: MainAction::ShowVersion }
    );
}
