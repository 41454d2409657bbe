use vstd::prelude::*;
use crate::group::{group_rows, grouped, named_view};
use crate::model::{Bind, Tab};
use crate::text::{
    chars_of, concat, eq_str, find_char, find_char_in, join, join_strs, lines, lines_str,
    replace_char, replace_char_str, splitn, splitn_trimmed, string_of, trim, trim_str, views,
};

verus! {

// Binds come from `bindd`/`bind` lines of every *.conf under ~/.config/hypr:
// `bindd = MODS, KEY, Description, exec, cmd` -> real description.
// `bind  = MODS, KEY, dispatcher, arg`        -> falls back to "dispatcher arg".

/// How a chord is shown: the modifiers joined by " + ", then the key.
pub open spec fn keys_text(mods: Seq<char>, key: Seq<char>) -> Seq<char> {
    if mods.len() == 0 {
        key
    } else {
        replace_char(mods, ' ', " + "@) + " + "@ + key
    }
}

/// The bind a config line declares, as (keys, action), if it declares one.
pub open spec fn bind_line(line: Seq<char>) -> Option<(Seq<char>, Seq<char>)> {
    match find_char(line, '=') {
        None => None,
        Some(e) => {
            let directive = trim(line.take(e));
            let rest = line.skip(e + 1);
            if directive != "bind"@ && directive != "bindd"@ && directive != "bindm"@ {
                None
            } else {
                let described = directive == "bindd"@;
                let parts = splitn(rest, if described { 5 } else { 4 }, ',').map_values(
                    |p: Seq<char>| trim(p),
                );
                if described && parts.len() >= 5 {
                    if parts[2].len() == 0 {
                        None
                    } else {
                        Some((keys_text(parts[0], parts[1]), parts[2]))
                    }
                } else if parts.len() >= 3 {
                    Some((keys_text(parts[0], parts[1]), join(parts.skip(2), " "@)))
                } else {
                    None
                }
            }
        },
    }
}

/// The binds that lines declare, in order (each line trimmed first).
pub open spec fn line_binds(ls: Seq<Seq<char>>) -> Seq<(Seq<char>, Seq<char>)>
    decreases ls.len(),
{
    if ls.len() == 0 {
        Seq::empty()
    } else {
        match bind_line(trim(ls.last())) {
            Some(b) => line_binds(ls.drop_last()).push(b),
            None => line_binds(ls.drop_last()),
        }
    }
}

/// The binds of one config file, in line order.
pub open spec fn file_binds(content: Seq<char>) -> Seq<(Seq<char>, Seq<char>)> {
    line_binds(lines(content))
}

/// The binds of all files, each with its file's group name, file after file.
pub open spec fn config_rows(files: Seq<(Seq<char>, Seq<char>)>) -> Seq<
    (Seq<char>, (Seq<char>, Seq<char>)),
>
    decreases files.len(),
{
    if files.len() == 0 {
        Seq::empty()
    } else {
        config_rows(files.drop_last()) + file_binds(files.last().1).map_values(
            |b: (Seq<char>, Seq<char>)| (files.last().0, b),
        )
    }
}

/// The displayed chord for modifiers `mods` and key `key`.
fn fmt_keys(mods: &str, key: &str) -> (r: String)
    ensures
        r@ == keys_text(mods@, key@),
{
    if mods.is_empty() {
        key.to_string()
    } else {
        let mut r = replace_char_str(mods, ' ', " + ");
        r.append(" + ");
        r.append(key);
        r
    }
}

/// The bind a `bind`/`bindd`/`bindm` line declares, if any.
fn parse_bind_line(line: &str) -> (r: Option<Bind>)
    ensures
        match r {
            Some(b) => bind_line(line@) == Some(b@),
            None => bind_line(line@) is None,
        },
{
    let v = chars_of(line);
    let n = v.len();
    assert(v@.subrange(0, n as int) == line@);
    let e = match find_char_in(&v, 0, n, '=') {
        None => {
            return None;
        },
        Some(e) => e,
    };
    let d = string_of(&v, 0, e);
    let directive = trim_str(d.as_str());
    let rest = string_of(&v, e + 1, n);
    assert(d@ == line@.take(e as int));
    assert(rest@ == line@.skip(e + 1));
    let described = eq_str(directive, "bindd");
    if !eq_str(directive, "bind") && !described && !eq_str(directive, "bindm") {
        return None;
    }
    let parts = splitn_trimmed(rest.as_str(), if described { 5 } else { 4 }, ',');
    if described && parts.len() >= 5 {
        if parts[2].as_str().is_empty() {
            return None;
        }
        return Some(
            Bind {
                keys: fmt_keys(parts[0].as_str(), parts[1].as_str()),
                action: parts[2].clone(),
            },
        );
    }
    if parts.len() >= 3 {
        let mut tail: Vec<String> = Vec::new();
        let mut j: usize = 2;
        while j < parts.len()
            invariant
                2 <= j <= parts@.len(),
                views(tail@) == views(parts@).subrange(2, j as int),
            decreases parts.len() - j,
        {
            let ghost before = tail@;
            tail.push(parts[j].clone());
            assert(views(tail@) == views(before).push(parts@[j as int]@));
            j += 1;
        }
        assert(views(parts@).subrange(2, j as int) == views(parts@).skip(2));
        proof {
            reveal_strlit(" ");
        }
        return Some(
            Bind {
                keys: fmt_keys(parts[0].as_str(), parts[1].as_str()),
                action: join_strs(&tail, " "),
            },
        );
    }
    None
}

/// The Hyprland tab for the config files read, given as (group name,
/// content) in path order — the group being the file's stem: every bind of
/// every file, grouped into sections named after the groups, ordered by
/// name.
pub fn load(files: &Vec<(String, String)>) -> (t: Tab)
    ensures
        t.app@ == "Hyprland"@,
        t.window_class@.len() == 0,
        t.aliases@.len() == 0,
        grouped(
            config_rows(files@.map_values(|f: (String, String)| (f.0@, f.1@))),
            t.sections_view(),
        ),
{
    let ghost fv = files@.map_values(|f: (String, String)| (f.0@, f.1@));
    let mut rows: Vec<(String, Bind)> = Vec::new();
    let mut i: usize = 0;
    while i < files.len()
        invariant
            i <= files@.len(),
            fv == files@.map_values(|f: (String, String)| (f.0@, f.1@)),
            rows@.map_values(|r: (String, Bind)| named_view(r)) == config_rows(fv.take(i as int)),
        decreases files.len() - i,
    {
        let group = &files[i].0;
        let ls = lines_str(files[i].1.as_str());
        let ghost lv = views(ls@);
        let ghost start = rows@.map_values(|r: (String, Bind)| named_view(r));
        let mut j: usize = 0;
        while j < ls.len()
            invariant
                j <= ls@.len(),
                lv == views(ls@),
                rows@.map_values(|r: (String, Bind)| named_view(r)) == start + line_binds(
                    lv.take(j as int),
                ).map_values(|b: (Seq<char>, Seq<char>)| (group@, b)),
            decreases ls.len() - j,
        {
            assert(lv.take(j as int + 1).drop_last() == lv.take(j as int));
            assert(lv.take(j as int + 1).last() == ls@[j as int]@);
            match parse_bind_line(trim_str(ls[j].as_str())) {
                Some(b) => {
                    let ghost before = rows@;
                    let ghost bv = b@;
                    rows.push((group.clone(), b));
                    assert(rows@.map_values(|r: (String, Bind)| named_view(r)) == before.map_values(
                        |r: (String, Bind)| named_view(r),
                    ).push((group@, bv)));
                    assert(line_binds(lv.take(j as int + 1)).map_values(
                        |b: (Seq<char>, Seq<char>)| (group@, b),
                    ) == line_binds(lv.take(j as int)).map_values(
                        |b: (Seq<char>, Seq<char>)| (group@, b),
                    ).push((group@, bv)));
                },
                None => {},
            }
            j += 1;
        }
        assert(lv.take(j as int) == lv);
        assert(fv.take(i as int + 1).drop_last() == fv.take(i as int));
        assert(fv.take(i as int + 1).last() == (group@, files@[i as int].1@));
        i += 1;
    }
    assert(fv.take(i as int) == fv);
    let sections = group_rows(rows);
    Tab { app: "Hyprland".to_string(), window_class: &[], aliases: &[], sections }
}

} // verus!
