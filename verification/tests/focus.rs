use kb::focus::{app_from_process_tree, focused_window, guess_app, wants_process_tree, ProcessWalk};
use kb::model::Tab;

fn tabs() -> Vec<Tab> {
    vec![
        Tab::from_raw("Neovim", &[], &[], &[]),
        Tab::from_raw("Tridactyl", &["librewolf", "firefox"], &[], &[]),
        Tab::from_raw("Yazi", &["yazi"], &[], &[]),
    ]
}

fn names(a: &[&str]) -> Vec<String> {
    a.iter().map(|s| s.to_string()).collect()
}

#[test]
fn window_class_picks_the_tab() {
    assert_eq!(guess_app(&tabs(), "LibreWolf", None), Some("Tridactyl".to_string()));
    assert_eq!(guess_app(&tabs(), "org.mozilla.firefox", None), Some("Tridactyl".to_string()));
    assert_eq!(guess_app(&tabs(), "gimp", None), None);
}

#[test]
fn terminals_are_told_apart_by_their_processes() {
    let tree = names(&["zsh", "herdr", "nvim"]);
    assert!(wants_process_tree(&tabs(), "com.mitchellh.ghostty"));
    assert!(!wants_process_tree(&tabs(), "gimp"));
    assert_eq!(guess_app(&tabs(), "com.mitchellh.ghostty", Some(&tree)), Some("Neovim".to_string()));
    assert_eq!(guess_app(&tabs(), "kitty", Some(&names(&["zsh", "yazi"]))), Some("Yazi".to_string()));
    assert_eq!(guess_app(&tabs(), "kitty", Some(&names(&["zsh"]))), None);
    assert_eq!(guess_app(&tabs(), "kitty", None), None);
    assert_eq!(guess_app(&tabs(), "gimp", Some(&tree)), None);
}

#[test]
fn telltales_in_priority_order() {
    assert_eq!(app_from_process_tree(&names(&["glow", "lazygit"])), Some("Lazygit".to_string()));
    assert_eq!(app_from_process_tree(&names(&["tuicr"])), Some("Tuicr".to_string()));
    assert_eq!(app_from_process_tree(&names(&["spotify_player", "herdr"])), Some("Herdr".to_string()));
    assert_eq!(app_from_process_tree(&names(&["nvimx"])), None);
}

#[test]
fn hyprctl_json_is_read() {
    let w = focused_window("{\"class\": \"Kitty\", \"pid\": 4242, \"title\": \"x\"}");
    assert_eq!(w, Some(("Kitty".to_string(), Some(4242))));
    assert_eq!(focused_window("{\"class\": \"kitty\"}"), Some(("kitty".to_string(), None)));
    assert_eq!(focused_window("{\"pid\": 1}"), None);
    assert_eq!(focused_window("not json"), None);
}

#[test]
fn process_walk_collects_children() {
    let mut w = ProcessWalk::new(10);
    assert_eq!(w.next_pid(), Some(10));
    w.record(Some("  11 zsh\n 12 tmux: server\nbad line\n"));
    assert_eq!(w.next_pid(), Some(12));
    w.record(None);
    assert_eq!(w.next_pid(), Some(11));
    w.record(Some("13 nvim\n"));
    assert_eq!(w.next_pid(), Some(13));
    w.record(Some(""));
    assert_eq!(w.next_pid(), None);
    assert_eq!(w.names(), names(&["zsh", "tmux: server", "nvim"]));
}
