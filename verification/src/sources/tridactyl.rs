use vstd::prelude::*;
use crate::model::{raw_section_view, RawSections, SectionView, Tab};

verus! {
/// No local .tridactylrc — config lives in browser sync storage (`:set`
/// commands run inside LibreWolf), nothing to read from disk. Static table
/// kept by hand until a native-messaging reader exists.
pub open spec fn tridactyl_keys() -> Seq<SectionView> {
    seq![
        ("Navigation"@, seq![
            ("j / k"@, "Scroll down / up"@),
            ("h / l"@, "Scroll left / right"@),
            ("gg / G"@, "Go to top / bottom"@),
            ("H / L"@, "Back / Forward"@),
            ("r"@, "Reload"@),
            ("R"@, "Hard reload"@),
        ]),
        ("Links"@, seq![
            ("f"@, "Hint mode — open in same tab"@),
            ("F"@, "Hint mode — open in new tab"@),
            ("gi"@, "Focus first input on the page"@),
        ]),
        ("Tabs"@, seq![
            ("t"@, "New tab with URL"@),
            ("d"@, "Close tab"@),
            ("u"@, "Reopen closed tab"@),
            ("J / K"@, "Previous / next tab"@),
            ("b"@, "Buffer picker (search by tab)"@),
            ("gt / gT"@, "Next / previous tab"@),
        ]),
        ("URL / Search"@, seq![
            ("o"@, "Open URL in same tab"@),
            ("O"@, "Open URL in new tab"@),
            ("s"@, "Search in same tab"@),
            ("S"@, "Search in new tab"@),
            ("p / P"@, "Open clipboard as URL"@),
        ]),
        ("Misc"@, seq![
            ("yy"@, "Copy page URL"@),
            ("yt"@, "Duplicate tab"@),
            ("zi / zo / zz"@, "Zoom in / out / reset"@),
            (":help"@, "Full help"@),
            (":tutor"@, "Interactive tutorial"@),
            ("Escape"@, "Back to normal mode"@),
        ]),
    ]
}

/// The table as static data.
fn table() -> (r: RawSections<'static>)
    ensures
        r@.map_values(|s: (&str, &[(&str, &str)])| raw_section_view(s)) == tridactyl_keys(),
{
    let r: RawSections<'static> = &[
        (
            "Navigation",
            &[
                ("j / k", "Scroll down / up"),
                ("h / l", "Scroll left / right"),
                ("gg / G", "Go to top / bottom"),
                ("H / L", "Back / Forward"),
                ("r", "Reload"),
                ("R", "Hard reload"),
            ],
        ),
        (
            "Links",
            &[
                ("f", "Hint mode — open in same tab"),
                ("F", "Hint mode — open in new tab"),
                ("gi", "Focus first input on the page"),
            ],
        ),
        (
            "Tabs",
            &[
                ("t", "New tab with URL"),
                ("d", "Close tab"),
                ("u", "Reopen closed tab"),
                ("J / K", "Previous / next tab"),
                ("b", "Buffer picker (search by tab)"),
                ("gt / gT", "Next / previous tab"),
            ],
        ),
        (
            "URL / Search",
            &[
                ("o", "Open URL in same tab"),
                ("O", "Open URL in new tab"),
                ("s", "Search in same tab"),
                ("S", "Search in new tab"),
                ("p / P", "Open clipboard as URL"),
            ],
        ),
        (
            "Misc",
            &[
                ("yy", "Copy page URL"),
                ("yt", "Duplicate tab"),
                ("zi / zo / zz", "Zoom in / out / reset"),
                (":help", "Full help"),
                (":tutor", "Interactive tutorial"),
                ("Escape", "Back to normal mode"),
            ],
        ),
    ];
    assert(raw_section_view(r@[0]) =~= tridactyl_keys()[0]);
    assert(raw_section_view(r@[1]) =~= tridactyl_keys()[1]);
    assert(raw_section_view(r@[2]) =~= tridactyl_keys()[2]);
    assert(raw_section_view(r@[3]) =~= tridactyl_keys()[3]);
    assert(raw_section_view(r@[4]) =~= tridactyl_keys()[4]);
    assert(r@.map_values(|s: (&str, &[(&str, &str)])| raw_section_view(s)) =~= tridactyl_keys());
    r
}

/// The Tridactyl tab.
pub fn load() -> (t: Tab)
    ensures
        t.app@ == "Tridactyl"@,
        t.window_class@.len() == 2,
        t.window_class@[0]@ == "librewolf"@,
        t.window_class@[1]@ == "firefox"@,
        t.aliases@.len() == 2,
        t.aliases@[0]@ == "vim"@,
        t.aliases@[1]@ == "browser"@,
        t.sections_view() == tridactyl_keys(),
{
    Tab::from_raw("Tridactyl", &["librewolf", "firefox"], &["vim", "browser"], table())
}

} // verus!
