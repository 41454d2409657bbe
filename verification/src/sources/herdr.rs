use vstd::prelude::*;
use crate::group::{group_rows, grouped, named_view};
use crate::keymap::KeyOverrides;
use crate::model::{Bind, Tab};
use crate::text::{
    chars_of, eq_str, find_char, find_char_in, join, join_strs, leading_ws, lemma_leading_ws_props,
    lines, lines_str, lowercase,
    replace, replace_char, replace_char_str, replace_str, split, split_str, starts_with, string_of,
    to_lower, trailing_ws, trim, trim_str, views,
};

verus! {

// What can be read live is ~/.config/herdr/config.toml's [keys] table, which
// overrides individual defaults — those are merged in.

/// The pieces at odd positions: what `split('"').skip(1).step_by(2)` keeps,
/// i.e. the quoted substrings.
pub open spec fn odd_pieces(ps: Seq<Seq<char>>) -> Seq<Seq<char>> {
    Seq::new(ps.len() / 2, |i: int| ps[2 * i + 1])
}

/// How one quoted alternate is shown: `prefix` capitalised, and spaces
/// around each `+`.
pub open spec fn fmt_alternate(q: Seq<char>) -> Seq<char> {
    replace_char(replace(q, "prefix"@, "Prefix"@), '+', " + "@)
}

/// The displayed value of `key = value`: its quoted alternates, formatted
/// and joined by " / "; `None` when nothing is quoted.
pub open spec fn override_value(v: Seq<char>) -> Option<Seq<char>> {
    let quoted = odd_pieces(split(trim(v), '"'));
    if quoted.len() == 0 {
        None
    } else {
        Some(join(quoted.map_values(|q: Seq<char>| fmt_alternate(q)), " / "@))
    }
}

/// Reading one line: a `[table]` header switches the `[keys]` flag, and a
/// `key = value` line inside `[keys]` with a quoted value sets the key.
pub open spec fn keys_step(st: (bool, Map<Seq<char>, Seq<char>>), line: Seq<char>) -> (
    bool,
    Map<Seq<char>, Seq<char>>,
) {
    let l = trim(line);
    if starts_with(l, seq!['[']) {
        (l == "[keys]"@, st.1)
    } else if !st.0 {
        st
    } else {
        match find_char(l, '=') {
            None => st,
            Some(e) => match override_value(l.skip(e + 1)) {
                None => st,
                Some(v) => (true, st.1.insert(trim(l.take(e)), v)),
            },
        }
    }
}

/// The state after reading `ls`, starting outside `[keys]` with no keys.
pub open spec fn keys_state(ls: Seq<Seq<char>>) -> (bool, Map<Seq<char>, Seq<char>>)
    decreases ls.len(),
{
    if ls.len() == 0 {
        (false, Map::empty())
    } else {
        keys_step(keys_state(ls.drop_last()), ls.last())
    }
}

/// The `[keys]` entries of a config file.
pub open spec fn keys_section(content: Seq<char>) -> Map<Seq<char>, Seq<char>> {
    keys_state(lines(content)).1
}

/// `q` formatted for display.
fn fmt_alternate_exec(q: &str) -> (r: String)
    ensures
        r@ == fmt_alternate(q@),
{
    proof {
        reveal_strlit("prefix");
    }
    let a = replace_str(q, "prefix", "Prefix");
    replace_char_str(a.as_str(), '+', " + ")
}

/// The displayed value of a `key = value` line's value part.
fn override_value_exec(v: &str) -> (r: Option<String>)
    ensures
        match r {
            Some(x) => override_value(v@) == Some(x@),
            None => override_value(v@) is None,
        },
{
    let parts = split_str(trim_str(v), '"');
    let ghost ps = views(parts@);
    let ghost odd = odd_pieces(ps);
    let mut vals: Vec<String> = Vec::new();
    let mut m: usize = 0;
    while m < parts.len() / 2
        invariant
            m <= parts@.len() / 2,
            ps == views(parts@),
            odd == odd_pieces(ps),
            views(vals@) == odd.take(m as int).map_values(|q: Seq<char>| fmt_alternate(q)),
        decreases parts.len() / 2 - m,
    {
        let ghost before = vals@;
        vals.push(fmt_alternate_exec(parts[2 * m + 1].as_str()));
        assert(views(vals@) == views(before).push(fmt_alternate(odd[m as int])));
        assert(odd.take(m as int + 1) == odd.take(m as int).push(odd[m as int]));
        m += 1;
    }
    assert(odd.take(m as int) == odd);
    if vals.len() == 0 {
        return None;
    }
    Some(join_strs(&vals, " / "))
}

/// Reads one line of the config into the `[keys]` flag and the map.
fn keys_line(line: &str, in_keys: bool, map: &mut KeyOverrides) -> (r: bool)
    ensures
        (r, final(map)@) == keys_step((in_keys, old(map)@), line@),
{
    let l = trim_str(line);
    let v = chars_of(l);
    if v.len() > 0 && v[0] == '[' {
        assert(v@.take(1) == seq!['[']);
        return eq_str(l, "[keys]");
    }
    proof {
        if v@.len() > 0 {
            assert(v@.take(1)[0] == v@[0]);
        }
    }
    if !in_keys {
        return in_keys;
    }
    let n = v.len();
    match find_char_in(&v, 0, n, '=') {
        None => {
            assert(v@.subrange(0, n as int) == v@);
            in_keys
        },
        Some(e) => {
            assert(v@.subrange(0, n as int) == v@);
            let value = string_of(&v, e + 1, n);
            assert(value@ == l@.skip(e + 1));
            match override_value_exec(value.as_str()) {
                None => in_keys,
                Some(x) => {
                    let k = string_of(&v, 0, e);
                    assert(k@ == l@.take(e as int));
                    let key = trim_str(k.as_str());
                    map.insert(key.to_string(), x);
                    true
                },
            }
        },
    }
}

/// Very small TOML `[keys]` table reader — just `key = "value"` lines, no
/// full parser needed for this one section. Values are either a plain
/// string ("prefix+q") or a TOML array of alternates (["prefix+h",
/// "alt+enter"]); the quoted substrings cover both.
pub fn parse_keys_section(content: &str) -> (r: KeyOverrides)
    ensures
        r@ == keys_section(content@),
{
    let ls = lines_str(content);
    let ghost lv = views(ls@);
    let mut map = KeyOverrides::new();
    let mut in_keys = false;
    let mut i: usize = 0;
    while i < ls.len()
        invariant
            i <= ls@.len(),
            lv == views(ls@),
            (in_keys, map@) == keys_state(lv.take(i as int)),
        decreases ls.len() - i,
    {
        assert(lv.take(i as int + 1).drop_last() == lv.take(i as int));
        assert(lv.take(i as int + 1).last() == ls@[i as int]@);
        in_keys = keys_line(ls[i].as_str(), in_keys, &mut map);
        i += 1;
    }
    assert(lv.take(i as int) == lv);
    map
}

/// The name a default's action goes by in herdr's config.
pub open spec fn action_key(action: Seq<char>) -> Seq<char> {
    replace_char(lowercase(action), ' ', "_"@)
}

/// The config name of an action: lowercased, spaces as underscores.
fn action_id(action: &str) -> (r: String)
    ensures
        r@ == action_key(action@),
{
    replace_char_str(to_lower(action).as_str(), ' ', "_")
}

/// A default `(section, keys, action)` with its keys replaced by the
/// override for its action, if there is one.
pub open spec fn merged_row(
    d: (Seq<char>, Seq<char>, Seq<char>),
    overrides: Map<Seq<char>, Seq<char>>,
) -> (Seq<char>, (Seq<char>, Seq<char>)) {
    let id = action_key(d.2);
    let keys = if overrides.contains_key(id) {
        overrides[id]
    } else {
        d.1
    };
    (d.0, (keys, d.2))
}

/// The view of a `(section, keys, action)` default.
pub open spec fn default_view(d: (&str, &str, &str)) -> (Seq<char>, Seq<char>, Seq<char>) {
    (d.0@, d.1@, d.2@)
}

/// The herdr tab for a table of defaults and the overrides read from the
/// config: every default, with its keys overridden by the entry for its
/// action, grouped into sections ordered by name.
fn merge_defaults(defaults: &[(&str, &str, &str)], overrides: &KeyOverrides) -> (t: Tab)
    ensures
        t.app@ == "Herdr"@,
        t.window_class@.len() == 0,
        t.aliases@.len() == 2,
        t.aliases@[0]@ == "tmux"@,
        t.aliases@[1]@ == "multiplexer"@,
        grouped(
            defaults@.map_values(|d: (&str, &str, &str)| merged_row(default_view(d), overrides@)),
            t.sections_view(),
        ),
{
    let ghost want = defaults@.map_values(
        |d: (&str, &str, &str)| merged_row(default_view(d), overrides@),
    );
    let mut rows: Vec<(String, Bind)> = Vec::new();
    let mut i: usize = 0;
    while i < defaults.len()
        invariant
            i <= defaults@.len(),
            want == defaults@.map_values(
                |d: (&str, &str, &str)| merged_row(default_view(d), overrides@),
            ),
            rows@.map_values(|r: (String, Bind)| named_view(r)) == want.take(i as int),
        decreases defaults.len() - i,
    {
        let (section, keys, action) = defaults[i];
        let id = action_id(action);
        let k = match overrides.get(id.as_str()) {
            Some(v) => v.clone(),
            None => keys.to_string(),
        };
        let ghost before = rows@;
        rows.push((section.to_string(), Bind { keys: k, action: action.to_string() }));
        assert(rows@.map_values(|r: (String, Bind)| named_view(r)) == before.map_values(
            |r: (String, Bind)| named_view(r),
        ).push(want[i as int]));
        assert(want.take(i as int + 1) == want.take(i as int).push(want[i as int]));
        i += 1;
    }
    assert(want.take(i as int) == want);
    let sections = group_rows(rows);
    Tab { app: "Herdr".to_string(), window_class: &[], aliases: &["tmux", "multiplexer"], sections }
}

/// herdr's default keybinds as (section, keys, action), hand-copied from
/// its source (src/ui/keybind_help.rs): herdr has no `dump-keybindings`
/// command and its defaults are compiled into the binary.
pub open spec fn herdr_defaults() -> Seq<(Seq<char>, Seq<char>, Seq<char>)> {
    seq![
        ("Workspaces"@, "Prefix + Down"@, "Next workspace"@),
        ("Workspaces"@, "Prefix + Up"@, "Previous workspace"@),
        ("Workspaces"@, "Prefix + W"@, "Workspace picker"@),
        ("Workspaces"@, "Prefix + Shift + N"@, "New workspace"@),
        ("Workspaces"@, "Prefix + Shift + W"@, "Rename workspace"@),
        ("Workspaces"@, "Prefix + Shift + D"@, "Close workspace"@),
        ("Tabs"@, "Prefix + Right"@, "Next tab"@),
        ("Tabs"@, "Prefix + Left"@, "Previous tab"@),
        ("Tabs"@, "Prefix + C"@, "New tab"@),
        ("Tabs"@, "Prefix + Shift + T"@, "Rename tab"@),
        ("Tabs"@, "Prefix + Shift + X"@, "Close tab"@),
        ("Tabs"@, "Prefix + 1..9"@, "Go to tab N"@),
        ("Panes"@, "Prefix + V"@, "Vertical split"@),
        ("Panes"@, "Prefix + -"@, "Horizontal split"@),
        ("Panes"@, "Prefix + X"@, "Close pane"@),
        ("Panes"@, "Prefix + Z"@, "Zoom (fullscreen) pane"@),
        ("Panes"@, "Prefix + H/J/K/L"@, "Focus pane left/down/up/right"@),
        ("Panes"@, "Prefix + Tab"@, "Cycle panes"@),
        ("Panes"@, "Prefix + R"@, "Resize mode"@),
        ("Misc"@, "Prefix + ?"@, "Help"@),
        ("Misc"@, "Prefix + B"@, "Toggle sidebar"@),
        ("Misc"@, "Prefix + G"@, "Goto (search)"@),
        ("Misc"@, "Prefix + E"@, "Edit scrollback"@),
    ]
}

/// The defaults as static data.
fn defaults() -> (r: &'static [(&'static str, &'static str, &'static str)])
    ensures
        r@.map_values(|d: (&str, &str, &str)| default_view(d)) == herdr_defaults(),
{
    let r: &'static [(&'static str, &'static str, &'static str)] = &[
        ("Workspaces", "Prefix + Down", "Next workspace"),
        ("Workspaces", "Prefix + Up", "Previous workspace"),
        ("Workspaces", "Prefix + W", "Workspace picker"),
        ("Workspaces", "Prefix + Shift + N", "New workspace"),
        ("Workspaces", "Prefix + Shift + W", "Rename workspace"),
        ("Workspaces", "Prefix + Shift + D", "Close workspace"),
        ("Tabs", "Prefix + Right", "Next tab"),
        ("Tabs", "Prefix + Left", "Previous tab"),
        ("Tabs", "Prefix + C", "New tab"),
        ("Tabs", "Prefix + Shift + T", "Rename tab"),
        ("Tabs", "Prefix + Shift + X", "Close tab"),
        ("Tabs", "Prefix + 1..9", "Go to tab N"),
        ("Panes", "Prefix + V", "Vertical split"),
        ("Panes", "Prefix + -", "Horizontal split"),
        ("Panes", "Prefix + X", "Close pane"),
        ("Panes", "Prefix + Z", "Zoom (fullscreen) pane"),
        ("Panes", "Prefix + H/J/K/L", "Focus pane left/down/up/right"),
        ("Panes", "Prefix + Tab", "Cycle panes"),
        ("Panes", "Prefix + R", "Resize mode"),
        ("Misc", "Prefix + ?", "Help"),
        ("Misc", "Prefix + B", "Toggle sidebar"),
        ("Misc", "Prefix + G", "Goto (search)"),
        ("Misc", "Prefix + E", "Edit scrollback"),
    ];
    assert(r@.map_values(|d: (&str, &str, &str)| default_view(d)) =~= herdr_defaults());
    r
}

/// The herdr tab: the defaults, with the keys of every action that the
/// `[keys]` table of the config overrides replaced, grouped into sections
/// ordered by name.
pub fn load(overrides: &KeyOverrides) -> (t: Tab)
    ensures
        t.app@ == "Herdr"@,
        t.window_class@.len() == 0,
        t.aliases@.len() == 2,
        t.aliases@[0]@ == "tmux"@,
        t.aliases@[1]@ == "multiplexer"@,
        grouped(
            herdr_defaults().map_values(
                |d: (Seq<char>, Seq<char>, Seq<char>)| merged_row(d, overrides@),
            ),
            t.sections_view(),
        ),
{
    let d = defaults();
    let t = merge_defaults(d, overrides);
    assert(d@.map_values(|x: (&str, &str, &str)| merged_row(default_view(x), overrides@))
        =~= herdr_defaults().map_values(
        |x: (Seq<char>, Seq<char>, Seq<char>)| merged_row(x, overrides@),
    ));
    t
}

/// A character that does not occur is not found.
proof fn lemma_find_char_absent(s: Seq<char>, c: char)
    requires
        forall|i: int| 0 <= i < s.len() ==> s[i] != c,
    ensures
        find_char(s, c) is None,
    decreases s.len(),
{
    if s.len() > 0 {
        let t = s.drop_first();
        assert forall|i: int| 0 <= i < t.len() implies t[i] != c by {
            assert(t[i] == s[i + 1]);
        }
        lemma_find_char_absent(t, c);
    }
}

/// The whitespace at the end of `s` is part of `s`.
proof fn lemma_trailing_ws_le(s: Seq<char>)
    ensures
        trailing_ws(s) <= s.len(),
    decreases s.len(),
{
    if s.len() > 0 {
        lemma_trailing_ws_le(s.drop_last());
    }
}

/// A line that is not a `[table]` header and holds no `=` (a blank line, a
/// comment) changes nothing: neither whether `[keys]` is being read nor
/// the keys read so far.
pub proof fn lemma_plain_line_keeps_state(st: (bool, Map<Seq<char>, Seq<char>>), line: Seq<char>)
    requires
        !starts_with(trim(line), seq!['[']),
        forall|i: int| 0 <= i < line.len() ==> line[i] != '=',
    ensures
        keys_step(st, line) == st,
{
    let l = trim(line);
    let a = leading_ws(line) as int;
    lemma_leading_ws_props(line);
    let ts = line.skip(a);
    lemma_trailing_ws_le(ts);
    assert(l == ts.take(ts.len() - trailing_ws(ts)));
    assert forall|i: int| 0 <= i < l.len() implies l[i] != '=' by {
        assert(l[i] == ts[i]);
        assert(ts[i] == line[a + i]);
    }
    lemma_find_char_absent(l, '=');
}

/// Leaving a line that is not a `[table]` header and holds no `=` out of a
/// config changes nothing of what is read from it: blank lines and
/// comments can stand anywhere, inside `[keys]` too.
pub proof fn lemma_plain_line_removable(ls: Seq<Seq<char>>, k: int)
    requires
        0 <= k < ls.len(),
        !starts_with(trim(ls[k]), seq!['[']),
        forall|i: int| 0 <= i < ls[k].len() ==> ls[k][i] != '=',
    ensures
        keys_state(ls.remove(k)) == keys_state(ls),
    decreases ls.len(),
{
    if k == ls.len() - 1 {
        assert(ls.remove(k) == ls.drop_last());
        lemma_plain_line_keeps_state(keys_state(ls.drop_last()), ls.last());
    } else {
        let t = ls.drop_last();
        assert(t[k] == ls[k]);
        lemma_plain_line_removable(t, k);
        assert(ls.remove(k).drop_last() == t.remove(k));
        assert(ls.remove(k).last() == ls.last());
    }
}

/// Reading lines none of which is a `[keys]` header sets no key.
proof fn lemma_keys_state_outside(ls: Seq<Seq<char>>)
    requires
        forall|i: int| 0 <= i < ls.len() ==> trim(#[trigger] ls[i]) != "[keys]"@,
    ensures
        keys_state(ls) == (false, Map::<Seq<char>, Seq<char>>::empty()),
    decreases ls.len(),
{
    if ls.len() > 0 {
        let t = ls.drop_last();
        assert forall|i: int| 0 <= i < t.len() implies trim(#[trigger] t[i]) != "[keys]"@ by {
            assert(t[i] == ls[i]);
        }
        lemma_keys_state_outside(t);
        assert(trim(ls[ls.len() - 1]) != "[keys]"@);
    }
}

/// Keys outside a `[keys]` table are ignored: a config without a `[keys]`
/// header overrides nothing.
pub proof fn lemma_no_keys_table_no_overrides(content: Seq<char>)
    requires
        forall|i: int| 0 <= i < lines(content).len() ==> trim(#[trigger] lines(content)[i]) != "[keys]"@,
    ensures
        keys_section(content) == Map::<Seq<char>, Seq<char>>::empty(),
{
    lemma_keys_state_outside(lines(content));
}

} // verus!
