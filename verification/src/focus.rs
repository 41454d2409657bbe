//! Guessing which tab to open on: the focused window's class, and for
//! terminals the processes running in them.
use vstd::prelude::*;
use crate::model::Tab;
use crate::model::str_views;
use crate::text::{
    chars_of, contains, contains_exec, decimal, eq_str, join, join_strs, lines, lines_str,
    lowercase, parse_i64, to_lower, views, words, words_str,
};

verus! {

/// What `serde_json` reads from the JSON text that `hyprctl activewindow -j`
/// prints: the string field `class` (`None` when the text is not JSON or
/// has no such string field) and the integer field `pid`, if any.
pub uninterp spec fn window_fields(json: Seq<char>) -> Option<(Seq<char>, Option<i64>)>;

/// Reads the `class` and `pid` fields of `hyprctl activewindow -j` output
/// with `serde_json::from_str` into a `serde_json::Value` and the value's
/// `get`, `as_str` and `as_i64`. The contract names the result, a function
/// of the text alone; JSON itself is not restated.
#[verifier::external_body]
fn read_window_json(json: &str) -> (r: Option<(String, Option<i64>)>)
    ensures
        match r {
            Some((c, p)) => window_fields(json@) == Some((c@, p)),
            None => window_fields(json@) is None,
        },
{
    let value: serde_json::Value = serde_json::from_str(json).ok()?;
    let class = value.get("class")?.as_str()?.to_string();
    let pid = value.get("pid").and_then(|v| v.as_i64());
    Some((class, pid))
}

/// The focused window's class and pid, read from `hyprctl activewindow -j`
/// output; `None` when the text is not JSON with a string `class`.
pub fn focused_window(json: &str) -> (r: Option<(String, Option<i64>)>)
    ensures
        match window_fields(json@) {
            Some((c, p)) => r matches Some((rc, rp)) && rc@ == c && rp == p,
            None => r is None,
        },
{
    read_window_json(json)
}

/// Window classes of terminals, which don't map to a single app.
pub open spec fn terminal_classes() -> Seq<Seq<char>> {
    seq!["ghostty"@, "kitty"@, "com.mitchellh.ghostty"@]
}

/// The class is a terminal's.
pub open spec fn is_terminal(class: Seq<char>) -> bool {
    exists|i: int| 0 <= i < terminal_classes().len() && contains(class, #[trigger] terminal_classes()[i])
}

/// The tab claims the window class: one of its classes occurs in it.
pub open spec fn claims(t: Tab, class: Seq<char>) -> bool {
    exists|i: int| 0 <= i < t.window_class@.len() && contains(class, #[trigger] t.window_class@[i]@)
}

/// The index of the first tab claiming the class, if any.
pub open spec fn first_claim(tabs: Seq<Tab>, class: Seq<char>) -> Option<int>
    decreases tabs.len(),
{
    if tabs.len() == 0 {
        None
    } else {
        match first_claim(tabs.drop_last(), class) {
            Some(i) => Some(i),
            None => if claims(tabs.last(), class) {
                Some(tabs.len() - 1)
            } else {
                None
            },
        }
    }
}

/// Process names that give a terminal's app away, with the app, in the
/// order they are looked for.
pub open spec fn telltales() -> Seq<(Seq<char>, Seq<char>)> {
    seq![
        ("nvim"@, "Neovim"@),
        ("herdr"@, "Herdr"@),
        ("spotify_player"@, "Spotify"@),
        ("lazygit"@, "Lazygit"@),
        ("yazi"@, "Yazi"@),
        ("glow"@, "Glow"@),
        ("tuicr"@, "Tuicr"@),
    ]
}

/// The app of the first telltale (from position `k` on) found among the
/// process names.
pub open spec fn telltale_app(names: Seq<Seq<char>>, k: int) -> Option<Seq<char>>
    decreases telltales().len() - k,
{
    if k < 0 || k >= telltales().len() {
        None
    } else if names.contains(telltales()[k].0) {
        Some(telltales()[k].1)
    } else {
        telltale_app(names, k + 1)
    }
}

/// The app a tab-less window is guessed to be: for a terminal with a known
/// process tree, the app that a telltale process reveals.
pub open spec fn guess(tabs: Seq<Tab>, class: Seq<char>, tree: Option<Seq<Seq<char>>>) -> Option<
    Seq<char>,
> {
    match first_claim(tabs, lowercase(class)) {
        Some(i) => Some(tabs[i].app@),
        None => if is_terminal(lowercase(class)) {
            match tree {
                Some(names) => telltale_app(names, 0),
                None => None,
            }
        } else {
            None
        },
    }
}

/// Whether `t` claims `class`.
fn claims_exec(t: &Tab, class: &Vec<char>) -> (r: bool)
    ensures
        r == claims(*t, class@),
{
    let mut i: usize = 0;
    while i < t.window_class.len()
        invariant
            i <= t.window_class@.len(),
            forall|j: int| 0 <= j < i ==> !contains(class@, #[trigger] t.window_class@[j]@),
        decreases t.window_class.len() - i,
    {
        if contains_exec(class, &chars_of(t.window_class[i])) {
            return true;
        }
        i += 1;
    }
    false
}

/// Whether the (lowercased) class is a terminal's.
fn is_terminal_exec(class: &Vec<char>) -> (r: bool)
    ensures
        r == is_terminal(class@),
{
    let a = contains_exec(class, &chars_of("ghostty"));
    let b = contains_exec(class, &chars_of("kitty"));
    let c = contains_exec(class, &chars_of("com.mitchellh.ghostty"));
    proof {
        if a {
            assert(contains(class@, terminal_classes()[0]));
        }
        if b {
            assert(contains(class@, terminal_classes()[1]));
        }
        if c {
            assert(contains(class@, terminal_classes()[2]));
        }
    }
    a || b || c
}

/// Whether some name is `name`.
fn has_name(names: &Vec<String>, name: &str) -> (r: bool)
    ensures
        r == views(names@).contains(name@),
{
    let mut i: usize = 0;
    while i < names.len()
        invariant
            i <= names@.len(),
            forall|j: int| 0 <= j < i ==> #[trigger] views(names@)[j] != name@,
        decreases names.len() - i,
    {
        if eq_str(names[i].as_str(), name) {
            assert(views(names@)[i as int] == name@);
            return true;
        }
        i += 1;
    }
    false
}

/// The app that the process names of a terminal give away, if any.
pub fn app_from_process_tree(names: &Vec<String>) -> (r: Option<String>)
    ensures
        match telltale_app(views(names@), 0) {
            Some(a) => r matches Some(x) && x@ == a,
            None => r is None,
        },
{
    proof {
        reveal_with_fuel(telltale_app, 8);
    }
    if has_name(names, "nvim") {
        Some("Neovim".to_string())
    } else if has_name(names, "herdr") {
        Some("Herdr".to_string())
    } else if has_name(names, "spotify_player") {
        Some("Spotify".to_string())
    } else if has_name(names, "lazygit") {
        Some("Lazygit".to_string())
    } else if has_name(names, "yazi") {
        Some("Yazi".to_string())
    } else if has_name(names, "glow") {
        Some("Glow".to_string())
    } else if has_name(names, "tuicr") {
        Some("Tuicr".to_string())
    } else {
        None
    }
}

/// The index of the first tab claiming `class`.
fn first_claim_exec(tabs: &[Tab], class: &Vec<char>) -> (r: Option<usize>)
    ensures
        match r {
            Some(i) => first_claim(tabs@, class@) == Some(i as int) && i < tabs@.len(),
            None => first_claim(tabs@, class@) is None,
        },
{
    let mut i: usize = 0;
    while i < tabs.len()
        invariant
            i <= tabs@.len(),
            first_claim(tabs@.take(i as int), class@) is None,
        decreases tabs.len() - i,
    {
        assert(tabs@.take(i as int + 1).drop_last() == tabs@.take(i as int));
        assert(tabs@.take(i as int + 1).last() == tabs@[i as int]);
        if claims_exec(&tabs[i], class) {
            proof {
                lemma_first_claim_extend(tabs@, class@, i as int + 1);
            }
            return Some(i);
        }
        i += 1;
    }
    assert(tabs@.take(i as int) == tabs@);
    None
}

/// A claim found in a prefix stays the first claim of the whole list.
proof fn lemma_first_claim_extend(tabs: Seq<Tab>, class: Seq<char>, j: int)
    requires
        0 <= j <= tabs.len(),
        first_claim(tabs.take(j), class) is Some,
    ensures
        first_claim(tabs, class) == first_claim(tabs.take(j), class),
    decreases tabs.len() - j,
{
    if j < tabs.len() {
        assert(tabs.take(j + 1).drop_last() == tabs.take(j));
        lemma_first_claim_extend(tabs, class, j + 1);
    } else {
        assert(tabs.take(j) == tabs);
    }
}

/// Whether the app needs the terminal's process tree to decide: no tab
/// claims the window, and it is a terminal.
pub fn wants_process_tree(tabs: &[Tab], class: &str) -> (r: bool)
    ensures
        r == (first_claim(tabs@, lowercase(class@)) is None && is_terminal(lowercase(class@))),
{
    let lc = chars_of(to_lower(class).as_str());
    first_claim_exec(tabs, &lc).is_none() && is_terminal_exec(&lc)
}

/// Best-effort guess at which tab should be selected on launch: the first
/// tab one of whose `window_class` entries occurs in the (lowercased)
/// focused window class; failing that, for a terminal class, the app that
/// the process tree under the window (`tree`, when its pid is known) gives
/// away.
pub fn guess_app(tabs: &[Tab], class: &str, tree: Option<&Vec<String>>) -> (r: Option<String>)
    ensures
        match guess(tabs@, class@, match tree {
            Some(t) => Some(views(t@)),
            None => None,
        }) {
            Some(a) => r matches Some(x) && x@ == a,
            None => r is None,
        },
{
    let lc = chars_of(to_lower(class).as_str());
    match first_claim_exec(tabs, &lc) {
        Some(i) => Some(tabs[i].app.clone()),
        None => {
            if is_terminal_exec(&lc) {
                match tree {
                    Some(names) => app_from_process_tree(names),
                    None => None,
                }
            } else {
                None
            }
        },
    }
}

/// The children a `ps --ppid <pid> -o pid=,comm=` line lists: its first
/// word read as a pid, and the rest of the words joined by spaces as the
/// command name; lines whose first word is not a pid are skipped.
pub open spec fn ps_line(line: Seq<char>) -> Option<(i64, Seq<char>)> {
    let ws = words(line);
    if ws.len() == 0 {
        None
    } else {
        match decimal(ws[0], true) {
            Some(p) => if i64::MIN <= p <= i64::MAX {
                Some((p as i64, join(ws.skip(1), " "@)))
            } else {
                None
            },
            None => None,
        }
    }
}

/// The children that `ps` output lists, in line order.
pub open spec fn ps_children(ls: Seq<Seq<char>>) -> Seq<(i64, Seq<char>)>
    decreases ls.len(),
{
    if ls.len() == 0 {
        Seq::empty()
    } else {
        match ps_line(ls.last()) {
            Some(c) => ps_children(ls.drop_last()).push(c),
            None => ps_children(ls.drop_last()),
        }
    }
}

/// A walk down the process tree under a window: pids still to ask `ps`
/// about, and the names of the processes found so far.
#[derive(Debug)]
pub struct ProcessWalk {
    pending: Vec<i64>,
    names: Vec<String>,
}

impl ProcessWalk {
    /// The pids still to visit, the last one next.
    pub closed spec fn pending_view(&self) -> Seq<i64> {
        self.pending@
    }

    /// The names found so far, in the order found.
    pub closed spec fn names_view(&self) -> Seq<Seq<char>> {
        views(self.names@)
    }

    /// A walk that starts at `root`.
    pub fn new(root: i64) -> (w: ProcessWalk)
        ensures
            w.pending_view() == seq![root],
            w.names_view() == Seq::<Seq<char>>::empty(),
    {
        let mut pending: Vec<i64> = Vec::new();
        pending.push(root);
        let w = ProcessWalk { pending, names: Vec::new() };
        assert(w.names_view() =~= Seq::<Seq<char>>::empty());
        w
    }

    /// The next pid to ask `ps` about, if any is left.
    pub fn next_pid(&mut self) -> (r: Option<i64>)
        ensures
            old(self).pending_view().len() == 0 ==> r is None && final(self).pending_view()
                == old(self).pending_view(),
            old(self).pending_view().len() > 0 ==> r == Some(old(self).pending_view().last())
                && final(self).pending_view() == old(self).pending_view().drop_last(),
            final(self).names_view() == old(self).names_view(),
    {
        self.pending.pop()
    }

    /// Records what `ps` printed for the pid last handed out (`None` when it
    /// could not be run): each child's name is found, and its pid is to be
    /// visited.
    pub fn record(&mut self, output: Option<&str>)
        ensures
            match output {
                None => final(self).pending_view() == old(self).pending_view()
                    && final(self).names_view() == old(self).names_view(),
                Some(out) => final(self).pending_view() == old(self).pending_view() + ps_children(
                    lines(out@),
                ).map_values(|c: (i64, Seq<char>)| c.0) && final(self).names_view()
                    == old(self).names_view() + ps_children(lines(out@)).map_values(
                    |c: (i64, Seq<char>)| c.1,
                ),
            },
    {
        match output {
            None => {},
            Some(out) => {
                let ls = lines_str(out);
                let ghost lv = views(ls@);
                let ghost p0 = self.pending@;
                let ghost n0 = views(self.names@);
                let mut i: usize = 0;
                while i < ls.len()
                    invariant
                        i <= ls@.len(),
                        lv == views(ls@),
                        self.pending@ == p0 + ps_children(lv.take(i as int)).map_values(
                            |c: (i64, Seq<char>)| c.0,
                        ),
                        views(self.names@) == n0 + ps_children(lv.take(i as int)).map_values(
                            |c: (i64, Seq<char>)| c.1,
                        ),
                    decreases ls.len() - i,
                {
                    assert(lv.take(i as int + 1).drop_last() == lv.take(i as int));
                    assert(lv.take(i as int + 1).last() == ls@[i as int]@);
                    match parse_ps_line(ls[i].as_str()) {
                        Some((pid, comm)) => {
                            let ghost c = (pid, comm@);
                            let ghost nb = views(self.names@);
                            self.names.push(comm);
                            self.pending.push(pid);
                            assert(views(self.names@) == nb.push(c.1));
                            assert(ps_children(lv.take(i as int + 1)) == ps_children(
                                lv.take(i as int),
                            ).push(c));
                        },
                        None => {},
                    }
                    i += 1;
                }
                assert(lv.take(i as int) == lv);
            },
        }
    }

    /// The names of all processes found.
    pub fn names(self) -> (r: Vec<String>)
        ensures
            views(r@) == self.names_view(),
    {
        self.names
    }
}

/// The child a `ps` line lists, if any.
fn parse_ps_line(line: &str) -> (r: Option<(i64, String)>)
    ensures
        match ps_line(line@) {
            Some((p, c)) => r matches Some((rp, rc)) && rp == p && rc@ == c,
            None => r is None,
        },
{
    let ws = words_str(line);
    if ws.len() == 0 {
        return None;
    }
    match parse_i64(ws[0].as_str()) {
        None => None,
        Some(pid) => {
            let mut rest: Vec<String> = Vec::new();
            let mut j: usize = 1;
            while j < ws.len()
                invariant
                    1 <= j <= ws@.len(),
                    views(rest@) == views(ws@).subrange(1, j as int),
                decreases ws.len() - j,
            {
                let ghost before = rest@;
                rest.push(ws[j].clone());
                assert(views(rest@) == views(before).push(ws@[j as int]@));
                j += 1;
            }
            assert(views(ws@).subrange(1, j as int) == views(ws@).skip(1));
            proof {
                reveal_strlit(" ");
            }
            Some((pid, join_strs(&rest, " ")))
        },
    }
}

} // verus!
