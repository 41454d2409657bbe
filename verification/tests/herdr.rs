use kb::keymap::KeyOverrides;
use kb::sources::herdr::{load, parse_keys_section};

#[test]
fn parses_plain_string_value() {
    let map = parse_keys_section("[keys]\nprefix = \"ctrl+space\"\n");
    assert_eq!(map.get("prefix").unwrap(), "ctrl + space");
}

#[test]
fn parses_array_of_alternates() {
    let map = parse_keys_section(
        "[keys]\nsplit_vertical = [\"prefix+v\", \"alt+shift+enter\"]\n",
    );
    assert_eq!(
        map.get("split_vertical").unwrap(),
        "Prefix + v / alt + shift + enter"
    );
}

#[test]
fn ignores_keys_outside_the_keys_section() {
    let map = parse_keys_section("[other]\nprefix = \"ctrl+space\"\n");
    assert!(map.is_empty());
}

#[test]
fn later_sections_switch_the_keys_flag_and_later_lines_win() {
    let map = parse_keys_section(
        "[keys]\na = \"x\"\n[other]\nb = \"y\"\n[keys]\r\na = \"z\"\nc = 1\nd = \"\"\n",
    );
    assert_eq!(map.get("a").unwrap(), "z");
    assert!(map.get("b").is_none());
    assert!(map.get("c").is_none());
    assert_eq!(map.get("d").unwrap(), "");
}

#[test]
fn defaults_are_grouped_by_section_name() {
    let t = load(&KeyOverrides::new());
    assert_eq!(t.app, "Herdr");
    let names: Vec<&str> = t.sections.iter().map(|s| s.name.as_str()).collect();
    assert_eq!(names, vec!["Misc", "Panes", "Tabs", "Workspaces"]);
    assert_eq!(t.sections[3].binds[0].keys, "Prefix + Down");
    assert_eq!(t.sections[3].binds.len(), 6);
    assert_eq!(t.aliases, &["tmux", "multiplexer"]);
}

#[test]
fn overrides_replace_the_keys_of_their_action() {
    let overrides = parse_keys_section("[keys]\nvertical_split = \"prefix+v\"\nnext_tab = [\"alt+l\", \"prefix+right\"]\n");
    let t = load(&overrides);
    let panes = t.sections.iter().find(|s| s.name == "Panes").unwrap();
    assert_eq!(panes.binds[0].keys, "Prefix + v");
    assert_eq!(panes.binds[0].action, "Vertical split");
    let tabs = t.sections.iter().find(|s| s.name == "Tabs").unwrap();
    assert_eq!(tabs.binds[0].keys, "alt + l / Prefix + right");
    assert_eq!(tabs.binds[1].keys, "Prefix + Left");
}
