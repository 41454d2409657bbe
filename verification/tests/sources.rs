use kb::model::Tab;
use kb::sources::nvim::KeymapEntry;

fn names(t: &Tab) -> Vec<&str> {
    t.sections.iter().map(|s| s.name.as_str()).collect()
}

#[test]
fn hypr_binds_are_read_per_file() {
    let files = vec![
        (
            "binds".to_string(),
            "# comment\nbindd = SUPER, Q, Close window, exec, killactive\n  bind = SUPER SHIFT, E, exec, wofi --show drun\nbindm = SUPER, mouse:272, movewindow\nbindd = , F1, , exec, x\nmonitor = DP-1, preferred\nbind = SUPER, X\n".to_string(),
        ),
        ("apps".to_string(), "bind=,Print,exec,grim, -g\n".to_string()),
        ("empty".to_string(), "# nothing\n".to_string()),
    ];
    let t = kb::sources::hypr::load(&files);
    assert_eq!(t.app, "Hyprland");
    assert_eq!(names(&t), vec!["apps", "binds"]);
    let apps = &t.sections[0].binds;
    assert_eq!(apps[0].keys, "Print");
    assert_eq!(apps[0].action, "exec grim, -g");
    let binds = &t.sections[1].binds;
    assert_eq!(binds.len(), 3);
    assert_eq!(binds[0].keys, "SUPER + Q");
    assert_eq!(binds[0].action, "Close window");
    assert_eq!(binds[1].keys, "SUPER + SHIFT + E");
    assert_eq!(binds[1].action, "exec wofi --show drun");
    assert_eq!(binds[2].keys, "SUPER + mouse:272");
    assert_eq!(binds[2].action, "movewindow");
}

#[test]
fn nvim_dump_is_grouped_by_mode() {
    let e = |mode: Option<&str>, lhs: &str, rhs: &str, desc: Option<&str>| KeymapEntry {
        mode: mode.map(|s| s.to_string()),
        lhs: lhs.to_string(),
        rhs: rhs.to_string(),
        desc: desc.map(|s| s.to_string()),
    };
    let t = kb::sources::nvim::load(Some(vec![
        e(Some("n"), "<leader>f", ":Telescope<CR>", Some("Find files")),
        e(Some("i"), "jk", "<Esc>", None),
        e(None, "gd", "", Some("")),
        e(Some("x"), " ", "y", None),
        e(Some("o"), "af", "", None),
    ]));
    assert_eq!(t.app, "Neovim");
    assert_eq!(names(&t), vec!["Insert", "Normal", "o"]);
    assert_eq!(t.sections[0].binds[0].action, "<Esc>");
    assert_eq!(t.sections[1].binds[0].action, "Find files");
    assert_eq!(t.sections[1].binds[1].keys, "gd");
    assert_eq!(t.sections[1].binds[1].action, "<cmd lua>");
    assert_eq!(t.sections[2].binds[0].action, "<cmd lua>");
}

#[test]
fn nvim_failure_shows_one_error_row() {
    let t = kb::sources::nvim::load(None);
    assert_eq!(names(&t), vec!["error"]);
    assert_eq!(t.sections[0].binds[0].keys, "-");
    assert!(t.sections[0].binds[0].action.starts_with("failed to run"));
    let l = kb::sources::nvim::loading_tab();
    assert_eq!(l.app, "Neovim");
    assert!(l.sections.is_empty());
}

#[test]
fn static_tables_load() {
    let g = kb::sources::glow::load();
    assert_eq!(g.app, "Glow");
    assert_eq!(g.window_class, &["glow"]);
    assert_eq!(g.sections[1].binds[6].action, "Help");
    let l = kb::sources::lazygit::load();
    assert_eq!(l.sections.len(), 5);
    assert_eq!(l.sections[4].binds[2].action, "Drop stash");
    let s = kb::sources::spotify_player::load();
    assert_eq!(s.window_class, &["spotify_player", "spotify-player"]);
    assert_eq!(s.sections[0].binds[4].keys, ". ");
    let t = kb::sources::tridactyl::load();
    assert_eq!(t.aliases, &["vim", "browser"]);
    assert_eq!(t.filtered("vim reload").len(), 3);
    let u = kb::sources::tuicr::load();
    assert_eq!(u.aliases, &["review", "pr", "code review"]);
    assert_eq!(u.flat().len(), 17);
    let y = kb::sources::yazi::load();
    assert_eq!(y.sections[3].name, "Busca e navegação rápida");
    assert_eq!(y.flat().len(), 32);
}
