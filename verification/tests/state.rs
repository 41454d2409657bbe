use kb::model::{SearchMode, Tab};
use kb::state::{tab_index, App, Key, KeyPress};

fn press(app: &mut App, key: Key) -> bool {
    app.handle_key(KeyPress { key, ctrl: false })
}

fn ctrl(app: &mut App, c: char) -> bool {
    app.handle_key(KeyPress { key: Key::Char(c), ctrl: true })
}

fn app() -> App {
    let many: Vec<(&str, &str)> = Vec::new();
    let _ = many;
    let tabs = vec![
        Tab::from_raw(
            "Neovim",
            &[],
            &["vim"],
            &[("Normal", &[
                ("a", "1"), ("b", "2"), ("c", "3"), ("d", "4"), ("e", "5"), ("f", "6"), ("g", "7"),
                ("h", "8"), ("i", "9"), ("j", "10"), ("k", "11"), ("l", "12"),
            ])],
        ),
        Tab::from_raw("Yazi", &[], &[], &[("Nav", &[("g g", "Top"), ("G", "Bottom")])]),
        Tab::from_raw("Empty", &[], &["scratch"], &[]),
    ];
    App::new(tabs, 0, 2)
}

#[test]
fn moving_wraps_around() {
    let mut a = app();
    assert_eq!(a.selected, Some(0));
    press(&mut a, Key::Up);
    assert_eq!(a.selected, Some(11));
    press(&mut a, Key::Down);
    assert_eq!(a.selected, Some(0));
    press(&mut a, Key::Char('j'));
    assert_eq!(a.selected, Some(1));
}

#[test]
fn half_pages_stop_at_the_ends() {
    let mut a = app();
    ctrl(&mut a, 'd');
    assert_eq!(a.selected, Some(10));
    ctrl(&mut a, 'd');
    assert_eq!(a.selected, Some(11));
    ctrl(&mut a, 'u');
    assert_eq!(a.selected, Some(1));
    ctrl(&mut a, 'u');
    assert_eq!(a.selected, Some(0));
    // without Ctrl, `d` and `u` do nothing
    press(&mut a, Key::Char('d'));
    assert_eq!(a.selected, Some(0));
}

#[test]
fn gg_and_shift_g_jump() {
    let mut a = app();
    press(&mut a, Key::Char('G'));
    assert_eq!(a.selected, Some(11));
    press(&mut a, Key::Char('g'));
    assert!(a.pending_g);
    assert_eq!(a.selected, Some(11));
    press(&mut a, Key::Char('g'));
    assert_eq!(a.selected, Some(0));
    assert!(!a.pending_g);
    press(&mut a, Key::Char('g'));
    press(&mut a, Key::Down);
    assert!(!a.pending_g);
}

#[test]
fn tabs_cycle_both_ways_and_reset_the_selection() {
    let mut a = app();
    press(&mut a, Key::Down);
    press(&mut a, Key::Char('l'));
    assert_eq!(a.active, 1);
    assert_eq!(a.selected, Some(0));
    press(&mut a, Key::Tab);
    assert_eq!(a.active, 2);
    assert_eq!(a.selected, None);
    press(&mut a, Key::Right);
    assert_eq!(a.active, 0);
    press(&mut a, Key::Char('h'));
    assert_eq!(a.active, 2);
    press(&mut a, Key::BackTab);
    press(&mut a, Key::Left);
    assert_eq!(a.active, 0);
}

#[test]
fn quitting_only_outside_the_search() {
    let mut a = app();
    assert!(!press(&mut a, Key::Char('/')));
    assert!(a.searching);
    assert_eq!(a.search_mode, SearchMode::Fuzzy);
    assert!(!press(&mut a, Key::Char('q')));
    assert_eq!(a.search, "q");
    assert!(!press(&mut a, Key::Esc));
    assert!(!a.searching);
    assert_eq!(a.search, "");
    assert!(press(&mut a, Key::Char('q')));
    let mut b = app();
    assert!(press(&mut b, Key::Esc));
}

#[test]
fn typing_filters_and_at_token_switches_tab() {
    let mut a = app();
    press(&mut a, Key::Char('/'));
    for c in "@yaz bot".chars() {
        press(&mut a, Key::Char(c));
    }
    assert_eq!(a.active, 1);
    assert_eq!(a.filter_text(), "bot");
    assert_eq!(a.row_count(), 1);
    assert_eq!(a.selected, Some(0));
    press(&mut a, Key::Enter);
    assert!(!a.searching);
    assert_eq!(a.search, "@yaz bot");
    press(&mut a, Key::Char('/'));
    for c in "@scr".chars() {
        press(&mut a, Key::Char(c));
    }
    assert_eq!(a.active, 2);
    assert_eq!(a.selected, None);
    press(&mut a, Key::Backspace);
    press(&mut a, Key::Backspace);
    press(&mut a, Key::Backspace);
    assert_eq!(a.search, "@");
    assert_eq!(a.active, 2);
    press(&mut a, Key::Backspace);
    press(&mut a, Key::Backspace);
    assert_eq!(a.search, "");
}

#[test]
fn whichkey_mode_narrows_by_chord() {
    let mut a = app();
    press(&mut a, Key::Char('l'));
    press(&mut a, Key::Char('w'));
    assert_eq!(a.search_mode, SearchMode::WhichKey);
    press(&mut a, Key::Char('g'));
    assert_eq!(a.row_count(), 1);
    press(&mut a, Key::Char('G'));
    assert_eq!(a.row_count(), 0);
    assert_eq!(a.selected, None);
}

#[test]
fn nvim_tab_arrives_and_spinner_turns() {
    let mut a = app();
    press(&mut a, Key::Char('h'));
    assert_eq!(a.active, 2);
    assert_eq!(a.spinner(), Some("⠋"));
    a.tick();
    assert_eq!(a.spinner(), Some("⠙"));
    a.receive_nvim(Tab::from_raw("Neovim", &[], &[], &[("Normal", &[("x", "y")])]));
    assert!(!a.loading);
    assert_eq!(a.spinner(), None);
    assert_eq!(a.selected, Some(0));
    a.tick();
    assert_eq!(a.spinner_frame, 1);
}

#[test]
fn tab_index_finds_the_first_tab_of_that_name() {
    let t = |name: &str| Tab::from_raw(name, &[], &[], &[]);
    let tabs = vec![t("Yazi"), t("Neovim"), t("Neovim")];
    assert_eq!(tab_index(&tabs, "Neovim"), Some(1));
    assert_eq!(tab_index(&tabs, "Yazi"), Some(0));
    assert_eq!(tab_index(&tabs, "neovim"), None);
    assert_eq!(tab_index(&[], "Yazi"), None);
}
