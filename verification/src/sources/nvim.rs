use vstd::prelude::*;
use crate::group::{group_rows, grouped, named_view};
use crate::model::{Bind, Section, Tab};
use crate::text::{eq_str, trim, trim_str};

verus! {

/// One entry of nvim's keymap dump (`nvim_get_keymap` for modes n, i, v, x).
#[derive(Debug)]
pub struct KeymapEntry {
    /// The mode the map belongs to; `None` when the dump leaves it out.
    pub mode: Option<String>,
    pub lhs: String,
    pub rhs: String,
    pub desc: Option<String>,
}

/// The section a mode's maps are listed under.
pub open spec fn mode_section(mode: Seq<char>) -> Seq<char> {
    if mode == "n"@ {
        "Normal"@
    } else if mode == "i"@ {
        "Insert"@
    } else if mode == "v"@ {
        "Visual"@
    } else if mode == "x"@ {
        "Visual (block)"@
    } else {
        mode
    }
}

/// The row an entry is shown as, or `None` for an entry with a blank `lhs`:
/// the description when there is a non-empty one, else the `rhs`, else
/// `<cmd lua>` for a map that is all Lua callback.
pub open spec fn entry_row(e: KeymapEntry) -> Option<(Seq<char>, (Seq<char>, Seq<char>))> {
    if trim(e.lhs@).len() == 0 {
        None
    } else {
        let mode = match e.mode {
            Some(m) => m@,
            None => "n"@,
        };
        let action = match e.desc {
            Some(d) => if d@.len() > 0 {
                d@
            } else {
                e.rhs@
            },
            None => e.rhs@,
        };
        let shown = if action.len() == 0 {
            "<cmd lua>"@
        } else {
            action
        };
        Some((mode_section(mode), (e.lhs@, shown)))
    }
}

/// The rows of the entries, in dump order.
pub open spec fn keymap_rows(es: Seq<KeymapEntry>) -> Seq<(Seq<char>, (Seq<char>, Seq<char>))>
    decreases es.len(),
{
    if es.len() == 0 {
        Seq::empty()
    } else {
        match entry_row(es.last()) {
            Some(r) => keymap_rows(es.drop_last()).push(r),
            None => keymap_rows(es.drop_last()),
        }
    }
}

/// The section name of a mode.
fn mode_name(mode: &str) -> (r: String)
    ensures
        r@ == mode_section(mode@),
{
    if eq_str(mode, "n") {
        "Normal".to_string()
    } else if eq_str(mode, "i") {
        "Insert".to_string()
    } else if eq_str(mode, "v") {
        "Visual".to_string()
    } else if eq_str(mode, "x") {
        "Visual (block)".to_string()
    } else {
        mode.to_string()
    }
}

/// Placeholder shown while the background dump is still running.
pub fn loading_tab() -> (t: Tab)
    ensures
        t.app@ == "Neovim"@,
        t.window_class@.len() == 0,
        t.aliases@.len() == 0,
        t.sections@.len() == 0,
{
    Tab { app: "Neovim".to_string(), window_class: &[], aliases: &[], sections: Vec::new() }
}

/// The sections of a keymap dump: one per mode, ordered by name, each with
/// its maps in dump order.
pub fn keymap_sections(entries: Vec<KeymapEntry>) -> (secs: Vec<Section>)
    ensures
        grouped(keymap_rows(entries@), secs@.map_values(|s: Section| s@)),
{
    let ghost orig = entries@;
    let n: usize = entries.len();
    let mut entries = entries;
    let mut pending: Vec<KeymapEntry> = Vec::new();
    while entries.len() > 0
        invariant
            pending@.len() + entries@.len() == orig.len(),
            entries@ == orig.take(entries@.len() as int),
            forall|k: int| 0 <= k < pending@.len() ==> #[trigger] pending@[k] == orig[orig.len() - 1 - k],
        decreases entries.len(),
    {
        let e = entries.pop().unwrap();
        assert(orig.take(entries@.len() as int + 1).drop_last() == orig.take(entries@.len() as int));
        pending.push(e);
    }
    let mut rows: Vec<(String, Bind)> = Vec::new();
    let mut t: usize = 0;
    while t < n
        invariant
            t <= n == orig.len(),
            pending@.len() == n - t,
            forall|k: int| 0 <= k < pending@.len() ==> #[trigger] pending@[k] == orig[orig.len() - 1 - k],
            rows@.map_values(|r: (String, Bind)| named_view(r)) == keymap_rows(orig.take(t as int)),
        decreases n - t,
    {
        let e = pending.pop().unwrap();
        assert(e == orig[t as int]);
        assert(orig.take(t as int + 1).drop_last() == orig.take(t as int));
        assert(orig.take(t as int + 1).last() == e);
        let blank = trim_str(e.lhs.as_str()).is_empty();
        if !blank {
            let ghost ev = e;
            let action = match e.desc {
                Some(d) => if d.as_str().is_empty() {
                    e.rhs
                } else {
                    d
                },
                None => e.rhs,
            };
            let shown = if action.as_str().is_empty() {
                "<cmd lua>".to_string()
            } else {
                action
            };
            let section = match e.mode {
                Some(m) => mode_name(m.as_str()),
                None => mode_name("n"),
            };
            let ghost before = rows@;
            rows.push((section, Bind { keys: e.lhs, action: shown }));
            assert(rows@.map_values(|r: (String, Bind)| named_view(r)) == before.map_values(
                |r: (String, Bind)| named_view(r),
            ).push(entry_row(ev)->0));
        }
        t += 1;
    }
    assert(orig.take(n as int) == orig);
    group_rows(rows)
}

/// The Neovim tab for a keymap dump, or, when the headless dump could not
/// be made or read (`None`), a tab whose one row says so.
pub fn load(dump: Option<Vec<KeymapEntry>>) -> (t: Tab)
    ensures
        t.app@ == "Neovim"@,
        t.window_class@.len() == 0,
        t.aliases@.len() == 0,
        match dump {
            Some(es) => grouped(keymap_rows(es@), t.sections_view()),
            None => t.sections_view() == seq![
                ("error"@, seq![("-"@, "failed to run `nvim --headless` (binary in PATH?)"@)]),
            ],
        },
{
    match dump {
        Some(entries) => {
            let sections = keymap_sections(entries);
            Tab { app: "Neovim".to_string(), window_class: &[], aliases: &[], sections }
        },
        None => {
            let mut binds: Vec<Bind> = Vec::new();
            binds.push(
                Bind {
                    keys: "-".to_string(),
                    action: "failed to run `nvim --headless` (binary in PATH?)".to_string(),
                },
            );
            let mut sections: Vec<Section> = Vec::new();
            sections.push(Section { name: "error".to_string(), binds });
            let t = Tab { app: "Neovim".to_string(), window_class: &[], aliases: &[], sections };
            assert(t.sections@[0].binds@.map_values(|b: Bind| b@) =~= seq![
                ("-"@, "failed to run `nvim --headless` (binary in PATH?)"@),
            ]);
            assert(t.sections_view() =~= seq![
                ("error"@, seq![("-"@, "failed to run `nvim --headless` (binary in PATH?)"@)]),
            ]);
            t
        },
    }
}

} // verus!
