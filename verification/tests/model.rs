use kb::model::{is_subsequence, split_at_tab, SearchMode, Tab};

fn tab() -> Tab {
    Tab::from_raw(
        "Tridactyl",
        &[],
        &["vim", "firefox"],
        &[("Tabs", &[("gt", "Next tab"), ("gT", "Previous tab")])],
    )
}

#[test]
fn matches_multi_word_any_order() {
    let t = tab();
    assert_eq!(t.filtered("tab next").len(), 1);
    assert_eq!(t.filtered("next tab").len(), 1);
}

#[test]
fn matches_via_alias() {
    let t = tab();
    assert_eq!(t.filtered("firefox next").len(), 1);
    assert_eq!(t.filtered("firefox drop").len(), 0);
}

#[test]
fn fuzzy_subsequence_matches() {
    let t = tab();
    // "nxt" is a subsequence of "next" but not a substring.
    assert_eq!(t.filtered("nxt").len(), 1);
}

#[test]
fn whichkey_narrows_by_prefix_ignoring_whitespace() {
    let t = Tab::from_raw(
        "Yazi",
        &[],
        &[],
        &[("Nav", &[("g g", "Top"), ("G", "Bottom"), ("gt", "Next tab")])],
    );
    assert_eq!(t.whichkey_filtered("g").len(), 2); // "gg", "gt" — not "G"
    assert_eq!(t.whichkey_filtered("gg").len(), 1);
    assert_eq!(t.whichkey_filtered("gg")[0].1.action, "Top");
    assert_eq!(t.whichkey_filtered("x").len(), 0);
}

#[test]
fn whichkey_matches_either_side_of_a_slash_alternative() {
    let t = Tab::from_raw("Yazi", &[], &[], &[("Nav", &[("Ctrl+u / Ctrl+d", "Half page")])]);
    assert_eq!(t.whichkey_filtered("Ctrl+d").len(), 1);
}

#[test]
fn split_at_tab_extracts_token_and_remainder() {
    assert_eq!(split_at_tab("@vim scroll"), (Some("vim"), "scroll"));
    assert_eq!(split_at_tab("@vim"), (Some("vim"), ""));
    assert_eq!(split_at_tab("scroll"), (None, "scroll"));
    assert_eq!(split_at_tab("@"), (None, "@"));
}

#[test]
fn substring_matches_rank_before_fuzzy_ones() {
    let t = Tab::from_raw(
        "App",
        &[],
        &[],
        &[("S", &[("a", "nearby xt"), ("b", "next"), ("c", "other")])],
    );
    let rows = t.filtered("nxt");
    // "next" holds "nxt" only as a subsequence; "nearby xt" too; order kept.
    assert_eq!(rows.len(), 2);
    let rows = t.filtered("next");
    // a substring of b's action, only a subsequence of a's: b comes first.
    assert_eq!(rows.iter().map(|r| r.1.keys.as_str()).collect::<Vec<_>>(), vec!["b", "a"]);
    let rows = t.filtered("xt");
    // both hold "xt" as a substring: table order.
    assert_eq!(rows.iter().map(|r| r.1.keys.as_str()).collect::<Vec<_>>(), vec!["a", "b"]);
    let rows = t.filtered("ne x");
    // "ne" and "x" are substrings of both; equal scores keep table order.
    assert_eq!(rows.iter().map(|r| r.1.keys.as_str()).collect::<Vec<_>>(), vec!["a", "b"]);
    let rows = t.filtered("nt");
    // "nt": subsequence of "nearby xt" and "next" only.
    assert_eq!(rows.iter().map(|r| r.1.keys.as_str()).collect::<Vec<_>>(), vec!["a", "b"]);
}

#[test]
fn substring_score_orders_results() {
    let t = Tab::from_raw(
        "App",
        &[],
        &[],
        &[("S", &[("a", "n e x t"), ("b", "next")])],
    );
    // "next" is a substring of row b and only a subsequence of row a.
    let rows = t.filtered("next");
    assert_eq!(rows.iter().map(|r| r.1.keys.as_str()).collect::<Vec<_>>(), vec!["b", "a"]);
}

#[test]
fn empty_search_keeps_every_row_in_order() {
    let t = tab();
    let all = t.flat();
    assert_eq!(t.filtered("").len(), all.len());
    assert_eq!(t.filtered("   ").len(), 2);
    assert_eq!(t.whichkey_filtered("").len(), 2);
    assert_eq!(t.filtered("")[0].1.keys, "gt");
    assert_eq!(t.filtered("")[1].1.keys, "gT");
}

#[test]
fn search_is_case_insensitive() {
    let t = tab();
    assert_eq!(t.filtered("NEXT").len(), 1);
    assert_eq!(t.filtered("TABS previous")[0].1.action, "Previous tab");
}

#[test]
fn flat_lists_rows_with_their_section() {
    let t = Tab::from_raw("A", &[], &[], &[("One", &[("a", "x")]), ("Two", &[("b", "y"), ("c", "z")])]);
    let rows = t.flat();
    assert_eq!(rows.len(), 3);
    assert_eq!(rows[0].0, "One");
    assert_eq!(rows[2].0, "Two");
    assert_eq!(rows[2].1.keys, "c");
}

#[test]
fn filtered_by_dispatches_on_mode() {
    let t = tab();
    assert_eq!(t.filtered_by(SearchMode::Fuzzy, "previous").len(), 1);
    assert_eq!(t.filtered_by(SearchMode::WhichKey, "gT").len(), 1);
    assert_eq!(t.filtered_by(SearchMode::WhichKey, "previous").len(), 0);
}

#[test]
fn whichkey_ignores_whitespace_in_the_buffer() {
    let t = Tab::from_raw("Yazi", &[], &[], &[("Nav", &[("gg", "Top"), ("G", "Bottom")])]);
    assert_eq!(t.whichkey_filtered("g g").len(), 1);
    assert_eq!(t.whichkey_filtered("  ").len(), 2);
}

#[test]
fn split_at_tab_trims_after_the_token() {
    assert_eq!(split_at_tab("@vim \t  scroll down"), (Some("vim"), "scroll down"));
    assert_eq!(split_at_tab("@ vim"), (None, "@ vim"));
    assert_eq!(split_at_tab(""), (None, ""));
}

#[test]
fn subsequence_keeps_order_but_not_adjacency() {
    assert!(is_subsequence("nxt", "next tab"));
    assert!(is_subsequence("", "anything"));
    assert!(!is_subsequence("txn", "next tab"));
    assert!(!is_subsequence("tabs", "tab"));
    assert!(is_subsequence("aa", "banana"));
}

#[test]
fn an_extra_word_only_narrows() {
    let t = tab();
    let wide = t.filtered("tab");
    let narrow = t.filtered("tab next");
    assert_eq!(wide.len(), 2);
    assert_eq!(narrow.len(), 1);
    for (s, b) in &narrow {
        assert!(wide.iter().any(|(s2, b2)| s2 == s && b2.keys == b.keys && b2.action == b.action));
    }
}
