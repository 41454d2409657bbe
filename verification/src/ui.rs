//! What the screen shows, decided apart from drawing it.
use vstd::prelude::*;
use crate::model::{
    at_tab_split, fuzzy_result, rows_view, split_at_tab, whichkey_rows, Bind, RowView, SearchMode,
    SearchState, Tab,
};
use crate::text::eq_str;

verus! {

/// The frames of the loading spinner.
pub open spec fn spinner_frames() -> Seq<&'static str> {
    seq!["⠋", "⠙", "⠹", "⠸", "⠼", "⠴", "⠦", "⠧", "⠇", "⠏"]
}

/// The spinner frame shown at tick `frame`.
pub fn spinner_glyph(frame: usize) -> (r: &'static str)
    ensures
        r == spinner_frames()[frame as int % 10],
{
    let frames: [&'static str; 10] = ["⠋", "⠙", "⠹", "⠸", "⠼", "⠴", "⠦", "⠧", "⠇", "⠏"];
    let r = frames[frame % 10];
    assert(frames@ == spinner_frames());
    r
}

/// The tab is the nvim placeholder still waiting for the dump.
pub open spec fn is_loading_nvim(t: Tab) -> bool {
    t.app@ == "Neovim"@ && t.sections@.len() == 0
}

/// The title of a tab in the tab bar: its name, followed by the spinner
/// while the nvim dump is still awaited.
pub fn tab_title(tab: &Tab, spinner: Option<&str>) -> (r: String)
    ensures
        r@ == match spinner {
            Some(s) => if is_loading_nvim(*tab) {
                tab.app@ + " "@ + s@
            } else {
                tab.app@
            },
            None => tab.app@,
        },
{
    match spinner {
        Some(s) => {
            if eq_str(tab.app.as_str(), "Neovim") && tab.sections.len() == 0 {
                let mut t = tab.app.clone();
                t.append(" ");
                t.append(s);
                t
            } else {
                tab.app.clone()
            }
        },
        None => tab.app.clone(),
    }
}

/// The bottom line: the search being typed or applied, or the key hint.
#[derive(Debug)]
pub enum Footer {
    /// "search> " while typing, "filter: " once applied, then the text.
    Input(String),
    Hint,
}

/// The key hint shown when there is no search.
pub fn hint() -> (r: &'static str)
    ensures
        r@ == " h/l switch tab · j/k navigate · gg/G top/bottom · / search · q quit "@,
{
    " h/l switch tab · j/k navigate · gg/G top/bottom · / search · q quit "
}

/// The bottom line for the search state.
pub fn footer(search: &str, searching: bool) -> (r: Footer)
    ensures
        searching || search@.len() > 0 ==> (r matches Footer::Input(t) && t@ == (if searching {
            "search> "@
        } else {
            "filter: "@
        }) + search@),
        !(searching || search@.len() > 0) ==> r is Hint,
{
    if searching || !search.is_empty() {
        let mut t = if searching {
            "search> ".to_string()
        } else {
            "filter: ".to_string()
        };
        t.append(search);
        Footer::Input(t)
    } else {
        Footer::Hint
    }
}

/// What the table area shows.
#[derive(Debug)]
pub enum BindsPane<'a> {
    /// The nvim dump is still running: the message to show.
    Loading(String),
    /// The search leaves no row.
    NoResults,
    /// The rows to list.
    Rows(Vec<(&'a str, &'a Bind)>),
}

/// What the table area shows for `tab` under the search `search`: a loading
/// message for the nvim placeholder, else the rows the search keeps (the
/// `@tab` selector left out of the search), or that there are none.
pub fn binds_pane<'a>(tab: &'a Tab, search: &SearchState, spinner: Option<&str>) -> (r: BindsPane<'a>)
    ensures
        is_loading_nvim(*tab) ==> (r matches BindsPane::Loading(m) && m@ == (match spinner {
            Some(s) => s@,
            None => Seq::empty(),
        }) + " loading nvim keymaps (headless)..."@),
        !is_loading_nvim(*tab) ==> {
            let rows = match search.mode {
                SearchMode::Fuzzy => fuzzy_result(
                    tab.rows(),
                    tab.alias_views(),
                    at_tab_split(search.text@).1,
                ),
                SearchMode::WhichKey => whichkey_rows(tab.rows(), at_tab_split(search.text@).1),
            };
            if rows.len() == 0 {
                r is NoResults
            } else {
                r matches BindsPane::Rows(v) && rows_view(v@) == rows
            }
        },
{
    if eq_str(tab.app.as_str(), "Neovim") && tab.sections.len() == 0 {
        let mut m = match spinner {
            Some(s) => s.to_string(),
            None => String::new(),
        };
        m.append(" loading nvim keymaps (headless)...");
        return BindsPane::Loading(m);
    }
    let rows = tab.filtered_by(search.mode, split_at_tab(search.text).1);
    if rows.len() == 0 {
        BindsPane::NoResults
    } else {
        BindsPane::Rows(rows)
    }
}

} // verus!
