use vstd::prelude::*;
use crate::model::{raw_section_view, RawSections, SectionView, Tab};

verus! {
/// No `keybinding:` override block in ~/.config/lazygit/config.yml — static
/// table from lazygit's documented default keybindings.
pub open spec fn lazygit_keys() -> Seq<SectionView> {
    seq![
        ("Global"@, seq![
            ("1..5"@, "Switch panel (Status/Files/Branches/Commits/Stash)"@),
            ("Tab"@, "Next panel"@),
            ("[ / ]"@, "Previous / next tab within panel"@),
            ("+ / -"@, "Increase / decrease panel"@),
            ("P"@, "Push"@),
            ("p"@, "Pull"@),
            ("x"@, "Panel options menu"@),
            ("?"@, "Help (full shortcut list)"@),
            ("q"@, "Quit"@),
        ]),
        ("Files"@, seq![
            ("space"@, "Stage / unstage file"@),
            ("a"@, "Stage all"@),
            ("c"@, "Commit"@),
            ("C"@, "Commit (external editor)"@),
            ("d"@, "Discard changes"@),
            ("e"@, "Edit file"@),
            ("i"@, "Ignore file"@),
            ("D"@, "Reset menu"@),
            ("Enter"@, "View staged diff by hunk/line"@),
        ]),
        ("Branches"@, seq![
            ("space"@, "Checkout branch"@),
            ("n"@, "New branch"@),
            ("d"@, "Delete branch"@),
            ("M"@, "Merge selected branch into current"@),
            ("r"@, "Rebase current branch onto selected"@),
            ("R"@, "Rename branch"@),
        ]),
        ("Commits"@, seq![
            ("space"@, "Checkout commit"@),
            ("s"@, "Squash down"@),
            ("f"@, "Fixup commit"@),
            ("r"@, "Reword"@),
            ("d"@, "Drop commit"@),
            ("p"@, "Pick (during interactive rebase)"@),
            ("g"@, "Reset current branch to this commit"@),
            ("C"@, "Copy commit (cherry-pick)"@),
            ("V"@, "Paste copied commits"@),
        ]),
        ("Stash"@, seq![
            ("space"@, "Apply stash"@),
            ("g"@, "Pop stash"@),
            ("d"@, "Drop stash"@),
        ]),
    ]
}

/// The table as static data.
fn table() -> (r: RawSections<'static>)
    ensures
        r@.map_values(|s: (&str, &[(&str, &str)])| raw_section_view(s)) == lazygit_keys(),
{
    let r: RawSections<'static> = &[
        (
            "Global",
            &[
                ("1..5", "Switch panel (Status/Files/Branches/Commits/Stash)"),
                ("Tab", "Next panel"),
                ("[ / ]", "Previous / next tab within panel"),
                ("+ / -", "Increase / decrease panel"),
                ("P", "Push"),
                ("p", "Pull"),
                ("x", "Panel options menu"),
                ("?", "Help (full shortcut list)"),
                ("q", "Quit"),
            ],
        ),
        (
            "Files",
            &[
                ("space", "Stage / unstage file"),
                ("a", "Stage all"),
                ("c", "Commit"),
                ("C", "Commit (external editor)"),
                ("d", "Discard changes"),
                ("e", "Edit file"),
                ("i", "Ignore file"),
                ("D", "Reset menu"),
                ("Enter", "View staged diff by hunk/line"),
            ],
        ),
        (
            "Branches",
            &[
                ("space", "Checkout branch"),
                ("n", "New branch"),
                ("d", "Delete branch"),
                ("M", "Merge selected branch into current"),
                ("r", "Rebase current branch onto selected"),
                ("R", "Rename branch"),
            ],
        ),
        (
            "Commits",
            &[
                ("space", "Checkout commit"),
                ("s", "Squash down"),
                ("f", "Fixup commit"),
                ("r", "Reword"),
                ("d", "Drop commit"),
                ("p", "Pick (during interactive rebase)"),
                ("g", "Reset current branch to this commit"),
                ("C", "Copy commit (cherry-pick)"),
                ("V", "Paste copied commits"),
            ],
        ),
        (
            "Stash",
            &[
                ("space", "Apply stash"),
                ("g", "Pop stash"),
                ("d", "Drop stash"),
            ],
        ),
    ];
    assert(raw_section_view(r@[0]) =~= lazygit_keys()[0]);
    assert(raw_section_view(r@[1]) =~= lazygit_keys()[1]);
    assert(raw_section_view(r@[2]) =~= lazygit_keys()[2]);
    assert(raw_section_view(r@[3]) =~= lazygit_keys()[3]);
    assert(raw_section_view(r@[4]) =~= lazygit_keys()[4]);
    assert(r@.map_values(|s: (&str, &[(&str, &str)])| raw_section_view(s)) =~= lazygit_keys());
    r
}

/// The Lazygit tab.
pub fn load() -> (t: Tab)
    ensures
        t.app@ == "Lazygit"@,
        t.window_class@.len() == 1,
        t.window_class@[0]@ == "lazygit"@,
        t.aliases@.len() == 0,
        t.sections_view() == lazygit_keys(),
{
    Tab::from_raw("Lazygit", &["lazygit"], &[], table())
}

} // verus!
