use vstd::prelude::*;
use crate::model::{raw_section_view, RawSections, SectionView, Tab};

verus! {

/// glow's TUI mode has no configurable keymap in glow.yml — static table
/// from its documented default keybindings.
pub open spec fn glow_keys() -> Seq<SectionView> {
    seq![
        ("Navigation (file finder)"@, seq![
            ("j / k"@, "Down / up"@),
            ("g g / G"@, "Top / bottom"@),
            ("/"@, "Filter files"@),
            ("Enter"@, "Open file"@),
            ("q"@, "Quit"@),
        ]),
        ("Reading (pager)"@, seq![
            ("j / k"@, "Scroll line down / up"@),
            ("d / u"@, "Half page down / up"@),
            ("g / G"@, "Top / bottom of document"@),
            ("/"@, "Search in document"@),
            ("n / N"@, "Next / previous match"@),
            ("esc / q"@, "Back to file finder"@),
            ("?"@, "Help"@),
        ]),
    ]
}

/// The table as static data.
fn table() -> (r: RawSections<'static>)
    ensures
        r@.map_values(|s: (&str, &[(&str, &str)])| raw_section_view(s)) == glow_keys(),
{
    let r: RawSections<'static> = &[
        (
            "Navigation (file finder)",
            &[
                ("j / k", "Down / up"),
                ("g g / G", "Top / bottom"),
                ("/", "Filter files"),
                ("Enter", "Open file"),
                ("q", "Quit"),
            ],
        ),
        (
            "Reading (pager)",
            &[
                ("j / k", "Scroll line down / up"),
                ("d / u", "Half page down / up"),
                ("g / G", "Top / bottom of document"),
                ("/", "Search in document"),
                ("n / N", "Next / previous match"),
                ("esc / q", "Back to file finder"),
                ("?", "Help"),
            ],
        ),
    ];
    assert(raw_section_view(r@[0]) =~= glow_keys()[0]);
    assert(raw_section_view(r@[1]) =~= glow_keys()[1]);
    assert(r@.map_values(|s: (&str, &[(&str, &str)])| raw_section_view(s)) =~= glow_keys());
    r
}

/// The Glow tab.
pub fn load() -> (t: Tab)
    ensures
        t.app@ == "Glow"@,
        t.window_class@.len() == 1,
        t.window_class@[0]@ == "glow"@,
        t.aliases@.len() == 0,
        t.sections_view() == glow_keys(),
{
    Tab::from_raw("Glow", &["glow"], &[], table())
}

} // verus!
