use kb::model::{SearchMode, SearchState, Tab};
use kb::theme::{current, is_daytime, Rgb};
use kb::ui::{binds_pane, footer, hint, spinner_glyph, tab_title, BindsPane, Footer};

#[test]
fn day_is_from_six_to_eighteen() {
    assert!(is_daytime(Some("06\n")));
    assert!(is_daytime(Some("17")));
    assert!(!is_daytime(Some("18\n")));
    assert!(!is_daytime(Some("05")));
    assert!(is_daytime(Some("garbage")));
    assert!(is_daytime(None));
    assert_eq!(current(true).bg, Rgb { r: 0xfb, g: 0xf1, b: 0xc7 });
    assert_eq!(current(false).accent_text, Rgb { r: 0xd4, g: 0xa0, b: 0x33 });
}

#[test]
fn titles_footer_and_pane() {
    let loading = kb::sources::nvim::loading_tab();
    assert_eq!(tab_title(&loading, Some("⠋")), "Neovim ⠋");
    assert_eq!(tab_title(&loading, None), "Neovim");
    let t = Tab::from_raw("Yazi", &[], &[], &[("Nav", &[("g g", "Top"), ("G", "Bottom")])]);
    assert_eq!(tab_title(&t, Some("⠋")), "Yazi");
    assert_eq!(spinner_glyph(11), "⠙");
    match footer("ab", true) {
        Footer::Input(s) => assert_eq!(s, "search> ab"),
        Footer::Hint => panic!(),
    }
    match footer("ab", false) {
        Footer::Input(s) => assert_eq!(s, "filter: ab"),
        Footer::Hint => panic!(),
    }
    assert!(matches!(footer("", false), Footer::Hint));
    assert!(hint().contains("q quit"));
    let s = SearchState { text: "@yazi top", active: false, mode: SearchMode::Fuzzy };
    match binds_pane(&t, &s, None) {
        BindsPane::Rows(rows) => assert_eq!(rows.len(), 1),
        _ => panic!(),
    }
    let s = SearchState { text: "zzz", active: false, mode: SearchMode::Fuzzy };
    assert!(matches!(binds_pane(&t, &s, None), BindsPane::NoResults));
    match binds_pane(&loading, &s, Some("⠋")) {
        BindsPane::Loading(m) => assert_eq!(m, "⠋ loading nvim keymaps (headless)..."),
        _ => panic!(),
    }
}
