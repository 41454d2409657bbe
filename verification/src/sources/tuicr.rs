use vstd::prelude::*;
use crate::model::{raw_section_view, RawSections, SectionView, Tab};

verus! {
/// Static table from tuicr's documented vim-style keybindings (docs at
/// tuicr.dev) — no local config file to source live from yet.
pub open spec fn tuicr_keys() -> Seq<SectionView> {
    seq![
        ("Navigation"@, seq![
            ("j / k"@, "Line down / up"@),
            ("h / l"@, "Collapse / expand hunk or file"@),
            ("g g / G"@, "Top / bottom of diff"@),
            ("Ctrl+d / Ctrl+u"@, "Half page down / up"@),
            ("Tab / Shift+Tab"@, "Next / previous file"@),
            ("]c / [c"@, "Next / previous hunk"@),
        ]),
        ("Comments"@, seq![
            ("c"@, "Comment on current line"@),
            ("v"@, "Visual mode — select line range"@),
            ("C"@, "Comment on whole file"@),
            ("R"@, "General review comment"@),
            ("e"@, "Edit existing comment"@),
            ("d"@, "Delete comment"@),
        ]),
        ("Review and submission"@, seq![
            ("s"@, "Submit review (push to forge)"@),
            ("y"@, "Copy review as markdown"@),
            ("Enter"@, "Approve / mark hunk as reviewed"@),
            ("?"@, "Help (full shortcut list)"@),
            ("q"@, "Quit"@),
        ]),
    ]
}

/// The table as static data.
fn table() -> (r: RawSections<'static>)
    ensures
        r@.map_values(|s: (&str, &[(&str, &str)])| raw_section_view(s)) == tuicr_keys(),
{
    let r: RawSections<'static> = &[
        (
            "Navigation",
            &[
                ("j / k", "Line down / up"),
                ("h / l", "Collapse / expand hunk or file"),
                ("g g / G", "Top / bottom of diff"),
                ("Ctrl+d / Ctrl+u", "Half page down / up"),
                ("Tab / Shift+Tab", "Next / previous file"),
                ("]c / [c", "Next / previous hunk"),
            ],
        ),
        (
            "Comments",
            &[
                ("c", "Comment on current line"),
                ("v", "Visual mode — select line range"),
                ("C", "Comment on whole file"),
                ("R", "General review comment"),
                ("e", "Edit existing comment"),
                ("d", "Delete comment"),
            ],
        ),
        (
            "Review and submission",
            &[
                ("s", "Submit review (push to forge)"),
                ("y", "Copy review as markdown"),
                ("Enter", "Approve / mark hunk as reviewed"),
                ("?", "Help (full shortcut list)"),
                ("q", "Quit"),
            ],
        ),
    ];
    assert(raw_section_view(r@[0]) =~= tuicr_keys()[0]);
    assert(raw_section_view(r@[1]) =~= tuicr_keys()[1]);
    assert(raw_section_view(r@[2]) =~= tuicr_keys()[2]);
    assert(r@.map_values(|s: (&str, &[(&str, &str)])| raw_section_view(s)) =~= tuicr_keys());
    r
}

/// The Tuicr tab.
pub fn load() -> (t: Tab)
    ensures
        t.app@ == "Tuicr"@,
        t.window_class@.len() == 1,
        t.window_class@[0]@ == "tuicr"@,
        t.aliases@.len() == 3,
        t.aliases@[0]@ == "review"@,
        t.aliases@[1]@ == "pr"@,
        t.aliases@[2]@ == "code review"@,
        t.sections_view() == tuicr_keys(),
{
    Tab::from_raw("Tuicr", &["tuicr"], &["review", "pr", "code review"], table())
}

} // verus!
