use kb::cli::{conflict_lines, conflicts, is_non_interactive, list_lines, run, Output};
use kb::model::Tab;

fn args(a: &[&str]) -> Vec<String> {
    a.iter().map(|s| s.to_string()).collect()
}

fn tabs() -> Vec<Tab> {
    vec![
        Tab::from_raw("One", &[], &[], &[("Nav", &[("q", "Quit"), ("G", "Bottom")])]),
        Tab::from_raw("Two", &[], &[], &[("Misc", &[("Q", "Close"), ("x", "Cut")])]),
        Tab::from_raw("Three", &[], &[], &[("All", &[("x", "Delete"), ("z", "Zoom")])]),
    ]
}

#[test]
fn non_interactive_flags() {
    assert!(is_non_interactive(&args(&["--list"])));
    assert!(is_non_interactive(&args(&["-v", "--json"])));
    assert!(is_non_interactive(&args(&["--conflicts"])));
    assert!(!is_non_interactive(&args(&[])));
    assert!(!is_non_interactive(&args(&["--lis", "json"])));
}

#[test]
fn list_lines_are_app_section_keys_action() {
    let lines = list_lines(&tabs());
    assert_eq!(lines.len(), 6);
    assert_eq!(lines[0], "One | Nav | q | Quit");
    assert_eq!(lines[5], "Three | All | z | Zoom");
}

#[test]
fn conflicts_group_keys_used_by_several_apps() {
    let cs = conflicts(&tabs());
    assert_eq!(cs.len(), 2);
    assert_eq!(cs[0].key, "q");
    assert_eq!(cs[0].uses, vec![("One".to_string(), "Quit".to_string()), ("Two".to_string(), "Close".to_string())]);
    assert_eq!(cs[1].key, "x");
    assert_eq!(cs[1].uses.len(), 2);
    let lines = conflict_lines(&cs);
    assert_eq!(lines, vec!["q:", "  One: Quit", "  Two: Close", "x:", "  Two: Cut", "  Three: Delete"]);
}

#[test]
fn same_app_reusing_a_key_is_no_conflict() {
    let t = vec![Tab::from_raw("One", &[], &[], &[("A", &[("k", "Up")]), ("B", &[("K", "Help")])])];
    let cs = conflicts(&t);
    assert!(cs.is_empty());
    assert_eq!(conflict_lines(&cs), vec!["no cross-app key collisions found"]);
}

#[test]
fn run_picks_the_mode() {
    match run(&args(&["--list", "--json"]), &tabs()) {
        Output::Json(rows) => {
            assert_eq!(rows.len(), 6);
            assert_eq!(rows[2].app, "Two");
            assert_eq!(rows[2].section, "Misc");
            assert_eq!(rows[2].keys, "Q");
            assert_eq!(rows[2].action, "Close");
        }
        _ => panic!("expected json"),
    }
    match run(&args(&["--conflicts"]), &tabs()) {
        Output::Conflicts(lines) => assert_eq!(lines[0], "q:"),
        _ => panic!("expected conflicts"),
    }
    match run(&args(&["--list"]), &tabs()) {
        Output::List(lines) => assert_eq!(lines.len(), 6),
        _ => panic!("expected list"),
    }
}
