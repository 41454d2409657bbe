//! The non-interactive modes: `--list`, `--json` and `--conflicts`.
use vstd::prelude::*;
use crate::group::{
    binds_named, group_rows, grouped, lemma_grouped_binds, named_view, reversed, row_names,
    section_names,
};
use crate::model::{row_view, rows_view, Bind, RowView, Section, SectionView, Tab};
use crate::text::{eq_str, lowercase, owned, to_lower};

verus! {

/// The flags that select a non-interactive mode.
pub open spec fn is_mode_flag(a: Seq<char>) -> bool {
    a == "--list"@ || a == "--json"@ || a == "--conflicts"@
}

/// Some argument equals `flag`.
pub open spec fn has_flag(args: Seq<String>, flag: Seq<char>) -> bool {
    exists|i: int| 0 <= i < args.len() && #[trigger] args[i]@ == flag
}

/// Whether some argument is `flag`.
fn any_arg(args: &[String], flag: &str) -> (r: bool)
    ensures
        r == has_flag(args@, flag@),
{
    let mut i: usize = 0;
    while i < args.len()
        invariant
            i <= args@.len(),
            forall|j: int| 0 <= j < i ==> #[trigger] args@[j]@ != flag@,
        decreases args.len() - i,
    {
        if eq_str(args[i].as_str(), flag) {
            return true;
        }
        i += 1;
    }
    false
}

/// Whether the arguments ask for one of the non-interactive modes.
pub fn is_non_interactive(args: &[String]) -> (r: bool)
    ensures
        r == exists|i: int| 0 <= i < args@.len() && is_mode_flag(#[trigger] args@[i]@),
{
    let r = any_arg(args, "--list") || any_arg(args, "--json") || any_arg(args, "--conflicts");
    proof {
        if r {
            if has_flag(args@, "--list"@) {
                let i = choose|i: int| 0 <= i < args@.len() && #[trigger] args@[i]@ == "--list"@;
                assert(is_mode_flag(args@[i]@));
            } else if has_flag(args@, "--json"@) {
                let i = choose|i: int| 0 <= i < args@.len() && #[trigger] args@[i]@ == "--json"@;
                assert(is_mode_flag(args@[i]@));
            } else {
                let i = choose|i: int|
                    0 <= i < args@.len() && #[trigger] args@[i]@ == "--conflicts"@;
                assert(is_mode_flag(args@[i]@));
            }
        }
    }
    r
}

/// One row of the `--json` output.
#[derive(Debug)]
pub struct Row {
    pub app: String,
    pub section: String,
    pub keys: String,
    pub action: String,
}

impl View for Row {
    type V = (Seq<char>, RowView);

    open spec fn view(&self) -> (Seq<char>, RowView) {
        (self.app@, (self.section@, self.keys@, self.action@))
    }
}

/// Every row of every tab, with its tab's app name, tab after tab.
pub open spec fn all_rows(tabs: Seq<Tab>) -> Seq<(Seq<char>, RowView)>
    decreases tabs.len(),
{
    if tabs.len() == 0 {
        Seq::empty()
    } else {
        all_rows(tabs.drop_last()) + tabs.last().rows().map_values(
            |r: RowView| (tabs.last().app@, r),
        )
    }
}

/// A `--list` line: "App | Section | Keys | Action".
pub open spec fn list_line(r: (Seq<char>, RowView)) -> Seq<char> {
    r.0 + " | "@ + r.1.0 + " | "@ + r.1.1 + " | "@ + r.1.2
}

/// What `run` produces for the chosen mode, for the caller to print.
#[derive(Debug)]
pub enum Output {
    /// `--json`: the rows, to be printed as a pretty JSON array of objects
    /// with the fields app, section, keys, action.
    Json(Vec<Row>),
    /// `--conflicts`: the lines of the collision report.
    Conflicts(Vec<String>),
    /// `--list` (and the default): one line per bind.
    List(Vec<String>),
}

/// Every row of every tab, with its app.
pub fn rows_of(tabs: &[Tab]) -> (r: Vec<Row>)
    ensures
        r@.map_values(|x: Row| x@) == all_rows(tabs@),
{
    let mut out: Vec<Row> = Vec::new();
    let mut i: usize = 0;
    while i < tabs.len()
        invariant
            i <= tabs@.len(),
            out@.map_values(|x: Row| x@) == all_rows(tabs@.take(i as int)),
        decreases tabs.len() - i,
    {
        let tab = &tabs[i];
        let rows = tab.flat();
        let ghost start = out@.map_values(|x: Row| x@);
        let mut j: usize = 0;
        while j < rows.len()
            invariant
                j <= rows@.len(),
                rows_view(rows@) == tab.rows(),
                out@.map_values(|x: Row| x@) == start + tab.rows().take(j as int).map_values(
                    |r: RowView| (tab.app@, r),
                ),
            decreases rows.len() - j,
        {
            let (section, bind) = rows[j];
            assert(tab.rows()[j as int] == row_view(rows@[j as int]));
            let ghost before = out@;
            out.push(
                Row {
                    app: tab.app.clone(),
                    section: section.to_string(),
                    keys: bind.keys.clone(),
                    action: bind.action.clone(),
                },
            );
            assert(out@.map_values(|x: Row| x@) == before.map_values(|x: Row| x@).push(
                (tab.app@, tab.rows()[j as int]),
            ));
            assert(tab.rows().take(j as int + 1) == tab.rows().take(j as int).push(
                tab.rows()[j as int],
            ));
            j += 1;
        }
        assert(tab.rows().take(j as int) == tab.rows());
        assert(tabs@.take(i as int + 1).drop_last() == tabs@.take(i as int));
        assert(tabs@.take(i as int + 1).last() == tabs@[i as int]);
        i += 1;
    }
    assert(tabs@.take(i as int) == tabs@);
    out
}

/// The `--list` lines: "App | Section | Keys | Action", one per bind.
pub fn list_lines(tabs: &[Tab]) -> (r: Vec<String>)
    ensures
        r@.map_values(|s: String| s@) == all_rows(tabs@).map_values(
            |x: (Seq<char>, RowView)| list_line(x),
        ),
{
    let rows = rows_of(tabs);
    let ghost rv = rows@.map_values(|x: Row| x@);
    let mut out: Vec<String> = Vec::new();
    let mut j: usize = 0;
    while j < rows.len()
        invariant
            j <= rows@.len(),
            rv == rows@.map_values(|x: Row| x@),
            out@.map_values(|s: String| s@) == rv.take(j as int).map_values(
                |x: (Seq<char>, RowView)| list_line(x),
            ),
        decreases rows.len() - j,
    {
        let r = &rows[j];
        let mut line = r.app.clone();
        line.append(" | ");
        line.append(r.section.as_str());
        line.append(" | ");
        line.append(r.keys.as_str());
        line.append(" | ");
        line.append(r.action.as_str());
        let ghost before = out@;
        out.push(line);
        assert(out@.map_values(|s: String| s@) == before.map_values(|s: String| s@).push(
            list_line(rv[j as int]),
        ));
        assert(rv.take(j as int + 1) == rv.take(j as int).push(rv[j as int]));
        j += 1;
    }
    assert(rv.take(j as int) == rv);
    out
}

/// Every use of a key: (lowercased keys, (app, action)), in listing order.
pub open spec fn key_uses(tabs: Seq<Tab>) -> Seq<(Seq<char>, (Seq<char>, Seq<char>))> {
    all_rows(tabs).map_values(|x: (Seq<char>, RowView)| (lowercase(x.1.1), (x.0, x.1.2)))
}

/// Some two of the uses belong to different apps.
pub open spec fn several_apps(uses: Seq<(Seq<char>, Seq<char>)>) -> bool {
    exists|i: int, j: int| 0 <= i < uses.len() && 0 <= j < uses.len() && #[trigger] uses[i].0 != #[trigger] uses[j].0
}

/// The uses of keys that more than one app uses.
pub open spec fn colliding_uses(us: Seq<(Seq<char>, (Seq<char>, Seq<char>))>) -> Seq<
    (Seq<char>, (Seq<char>, Seq<char>)),
> {
    us.filter(|u: (Seq<char>, (Seq<char>, Seq<char>))| several_apps(binds_named(us, u.0)))
}

/// A key string used by more than one app, with all its uses.
#[derive(Debug)]
pub struct Collision {
    /// The key string, lowercased.
    pub key: String,
    /// (app, action) of every use, in listing order.
    pub uses: Vec<(String, String)>,
}

impl View for Collision {
    type V = (Seq<char>, Seq<(Seq<char>, Seq<char>)>);

    open spec fn view(&self) -> (Seq<char>, Seq<(Seq<char>, Seq<char>)>) {
        (self.key@, self.uses@.map_values(|u: (String, String)| (u.0@, u.1@)))
    }
}

/// Every use of a key, as rows to group: the lowercased keys as the name,
/// the app in `keys` and the action in `action`.
fn uses_of(tabs: &[Tab]) -> (r: Vec<(String, Bind)>)
    ensures
        r@.map_values(|x: (String, Bind)| named_view(x)) == key_uses(tabs@),
{
    let rows = rows_of(tabs);
    let ghost rv = rows@.map_values(|x: Row| x@);
    let ghost us = key_uses(tabs@);
    let mut out: Vec<(String, Bind)> = Vec::new();
    let mut j: usize = 0;
    while j < rows.len()
        invariant
            j <= rows@.len(),
            rv == rows@.map_values(|x: Row| x@),
            rv == all_rows(tabs@),
            us == key_uses(tabs@),
            out@.map_values(|x: (String, Bind)| named_view(x)) == us.take(j as int),
        decreases rows.len() - j,
    {
        let r = &rows[j];
        let ghost before = out@;
        out.push((to_lower(r.keys.as_str()), Bind { keys: r.app.clone(), action: r.action.clone() }));
        assert(out@.map_values(|x: (String, Bind)| named_view(x)) == before.map_values(
            |x: (String, Bind)| named_view(x),
        ).push(us[j as int]));
        assert(us.take(j as int + 1) == us.take(j as int).push(us[j as int]));
        j += 1;
    }
    assert(us.take(j as int) == us);
    out
}

/// Whether the binds (app in `keys`) belong to more than one app.
fn several_apps_exec(binds: &Vec<Bind>) -> (r: bool)
    ensures
        r == several_apps(binds@.map_values(|b: Bind| b@)),
{
    let ghost bv = binds@.map_values(|b: Bind| b@);
    if binds.len() == 0 {
        return false;
    }
    let mut i: usize = 1;
    while i < binds.len()
        invariant
            1 <= i <= binds@.len(),
            bv == binds@.map_values(|b: Bind| b@),
            forall|j: int| 0 <= j < i ==> #[trigger] bv[j].0 == bv[0].0,
        decreases binds.len() - i,
    {
        if !eq_str(binds[i].keys.as_str(), binds[0].keys.as_str()) {
            assert(bv[i as int].0 != bv[0].0);
            return true;
        }
        i += 1;
    }
    assert forall|a: int, b: int| 0 <= a < bv.len() && 0 <= b < bv.len() implies #[trigger] bv[a].0
        == #[trigger] bv[b].0 by {
        assert(bv[a].0 == bv[0].0);
        assert(bv[b].0 == bv[0].0);
    }
    false
}

/// Flags the same key string (case-insensitively) showing up under more
/// than one app, with every use of it. Informational only: not scoped by
/// focus context, since two apps can happily reuse a key if they're never
/// focused at the same time — it's just a heads-up.
pub fn conflicts(tabs: &[Tab]) -> (r: Vec<Collision>)
    ensures
        grouped(colliding_uses(key_uses(tabs@)), r@.map_values(|c: Collision| c@)),
{
    let ghost us = key_uses(tabs@);
    let all = group_rows(uses_of(tabs));
    let ghost sv = all@.map_values(|s: Section| s@);
    let uses = uses_of(tabs);
    let mut keep: Vec<(String, Bind)> = Vec::new();
    let ghost orig = uses@;
    let n: usize = uses.len();
    let mut rev = reversed(uses);
    let ghost ov = orig.map_values(|x: (String, Bind)| named_view(x));
    assert(ov == us);
    let mut t: usize = 0;
    while t < n
        invariant
            t <= n == orig.len(),
            rev@.len() == n - t,
            forall|k: int| 0 <= k < rev@.len() ==> #[trigger] rev@[k] == orig[orig.len() - 1 - k],
            ov == orig.map_values(|x: (String, Bind)| named_view(x)),
            ov == us,
            grouped(us, sv),
            sv == all@.map_values(|s: Section| s@),
            keep@.map_values(|x: (String, Bind)| named_view(x)) == us.take(t as int).filter(
                |u: (Seq<char>, (Seq<char>, Seq<char>))| several_apps(binds_named(us, u.0)),
            ),
        decreases n - t,
    {
        let x = rev.pop().unwrap();
        assert(x == orig[t as int]);
        let ghost k = x.0@;
        assert(us[t as int].0 == k);
        // The section of this key exists, since every use's key has one.
        assert(row_names(us).contains(k));
        assert(section_names(sv).contains(k));
        let mut p: usize = 0;
        let mut hit = false;
        while p < all.len()
            invariant
                p <= all@.len(),
                sv == all@.map_values(|s: Section| s@),
                grouped(us, sv),
                x.0@ == k,
                forall|i: int| 0 <= i < p ==> #[trigger] sv[i].0 != k,
            ensures
                p < all@.len() ==> sv[p as int].0 == k && hit == several_apps(binds_named(us, k)),
                p == all@.len() ==> forall|i: int| 0 <= i < sv.len() ==> #[trigger] sv[i].0 != k,
            decreases all.len() - p,
        {
            if eq_str(all[p].name.as_str(), x.0.as_str()) {
                hit = several_apps_exec(&all[p].binds);
                proof {
                    crate::group::lemma_grouped_binds(us, sv, p as int);
                }
                break;
            }
            p += 1;
        }
        proof {
            if p == all@.len() {
                let i = choose|i: int| 0 <= i < sv.len() && sv[i].0 == k;
                assert(sv[i].0 != k);
            }
        }
        assert(hit == several_apps(binds_named(us, k)));
        assert(us.take(t as int + 1).drop_last() == us.take(t as int));
        assert(us.take(t as int + 1).last() == us[t as int]);
        reveal_with_fuel(Seq::filter, 1);
        if hit {
            let ghost before = keep@;
            keep.push(x);
            assert(keep@.map_values(|y: (String, Bind)| named_view(y)) == before.map_values(
                |y: (String, Bind)| named_view(y),
            ).push(us[t as int]));
        }
        t += 1;
    }
    assert(us.take(t as int) == us);
    let secs = group_rows(keep);
    let ghost cv = secs@.map_values(|s: Section| s@);
    let m: usize = secs.len();
    let mut srev = reversed(secs);
    let mut out: Vec<Collision> = Vec::new();
    let mut i: usize = 0;
    while i < m
        invariant
            i <= m == cv.len(),
            srev@.len() == m - i,
            forall|k: int| 0 <= k < srev@.len() ==> #[trigger] srev@[k]@ == cv[m - 1 - k],
            out@.map_values(|c: Collision| c@) == cv.take(i as int),
        decreases m - i,
    {
        let s = srev.pop().unwrap();
        assert(s@ == cv[i as int]);
        let c = to_collision(s);
        let ghost before = out@;
        out.push(c);
        assert(out@.map_values(|c: Collision| c@) == before.map_values(|c: Collision| c@).push(
            cv[i as int],
        ));
        assert(cv.take(i as int + 1) == cv.take(i as int).push(cv[i as int]));
        i += 1;
    }
    assert(cv.take(i as int) == cv);
    out
}

/// A grouped section of uses as a collision: the section name is the key,
/// each bind's `keys` the app.
fn to_collision(s: Section) -> (c: Collision)
    ensures
        c@ == s@,
{
    let ghost bv = s.binds@.map_values(|b: Bind| b@);
    let n: usize = s.binds.len();
    let mut rev = reversed(s.binds);
    let mut uses: Vec<(String, String)> = Vec::new();
    let mut i: usize = 0;
    while i < n
        invariant
            i <= n == bv.len(),
            rev@.len() == n - i,
            forall|k: int| 0 <= k < rev@.len() ==> #[trigger] rev@[k]@ == bv[n - 1 - k],
            uses@.map_values(|u: (String, String)| (u.0@, u.1@)) == bv.take(i as int),
        decreases n - i,
    {
        let b = rev.pop().unwrap();
        assert(b@ == bv[i as int]);
        let ghost before = uses@;
        uses.push((b.keys, b.action));
        assert(uses@.map_values(|u: (String, String)| (u.0@, u.1@)) == before.map_values(
            |u: (String, String)| (u.0@, u.1@),
        ).push(bv[i as int]));
        assert(bv.take(i as int + 1) == bv.take(i as int).push(bv[i as int]));
        i += 1;
    }
    assert(bv.take(i as int) == bv);
    Collision { key: s.name, uses }
}
/// The report lines for one collision: "key:" then "  app: action" for
/// each use.
pub open spec fn collision_lines(c: (Seq<char>, Seq<(Seq<char>, Seq<char>)>)) -> Seq<Seq<char>> {
    seq![c.0 + ":"@] + c.1.map_values(|u: (Seq<char>, Seq<char>)| "  "@ + u.0 + ": "@ + u.1)
}

/// The report lines for all collisions, or a single line saying there are
/// none.
pub open spec fn conflict_report(cs: Seq<(Seq<char>, Seq<(Seq<char>, Seq<char>)>)>) -> Seq<
    Seq<char>,
> {
    if cs.len() == 0 {
        seq!["no cross-app key collisions found"@]
    } else {
        report_body(cs)
    }
}

/// The lines of the collisions, collision after collision.
pub open spec fn report_body(cs: Seq<(Seq<char>, Seq<(Seq<char>, Seq<char>)>)>) -> Seq<Seq<char>>
    decreases cs.len(),
{
    if cs.len() == 0 {
        Seq::empty()
    } else {
        report_body(cs.drop_last()) + collision_lines(cs.last())
    }
}

/// The lines of the `--conflicts` report.
pub fn conflict_lines(cs: &Vec<Collision>) -> (r: Vec<String>)
    ensures
        r@.map_values(|s: String| s@) == conflict_report(cs@.map_values(|c: Collision| c@)),
{
    let ghost cv = cs@.map_values(|c: Collision| c@);
    let mut out: Vec<String> = Vec::new();
    if cs.len() == 0 {
        out.push("no cross-app key collisions found".to_string());
        assert(out@.map_values(|s: String| s@) =~= seq!["no cross-app key collisions found"@]);
        return out;
    }
    let mut i: usize = 0;
    while i < cs.len()
        invariant
            i <= cs@.len(),
            cv == cs@.map_values(|c: Collision| c@),
            out@.map_values(|s: String| s@) == report_body(cv.take(i as int)),
        decreases cs.len() - i,
    {
        let c = &cs[i];
        let ghost start = out@.map_values(|s: String| s@);
        let mut head = c.key.clone();
        head.append(":");
        out.push(head);
        assert(out@.map_values(|s: String| s@) == start.push(c.key@ + ":"@));
        let mut j: usize = 0;
        while j < c.uses.len()
            invariant
                j <= c.uses@.len(),
                *c == cs@[i as int],
                out@.map_values(|s: String| s@) == start + collision_lines(c@).take(j as int + 1),
            decreases c.uses.len() - j,
        {
            let mut line = "  ".to_string();
            line.append(c.uses[j].0.as_str());
            line.append(": ");
            line.append(c.uses[j].1.as_str());
            let ghost before = out@;
            out.push(line);
            assert(collision_lines(c@)[j as int + 1] == line@);
            assert(out@.map_values(|s: String| s@) == before.map_values(|s: String| s@).push(
                line@,
            ));
            assert(collision_lines(c@).take(j as int + 2) == collision_lines(c@).take(j as int + 1).push(
                line@,
            ));
            j += 1;
        }
        assert(collision_lines(c@).take(j as int + 1) == collision_lines(c@));
        assert(cv.take(i as int + 1).drop_last() == cv.take(i as int));
        assert(cv.take(i as int + 1).last() == c@);
        i += 1;
    }
    assert(cv.take(i as int) == cv);
    out
}

/// What a mode prints for `tabs`.
pub open spec fn run_output(args: Seq<String>, tabs: Seq<Tab>, out: Output) -> bool {
    if has_flag(args, "--json"@) {
        out matches Output::Json(rows) && rows@.map_values(|x: Row| x@) == all_rows(tabs)
    } else if has_flag(args, "--conflicts"@) {
        out matches Output::Conflicts(lines) && (exists|cs: Seq<SectionView>|
            #![trigger conflict_report(cs)]
            grouped(colliding_uses(key_uses(tabs)), cs) && lines@.map_values(|s: String| s@)
                == conflict_report(cs))
    } else {
        out matches Output::List(lines) && lines@.map_values(|s: String| s@) == all_rows(
            tabs,
        ).map_values(|x: (Seq<char>, RowView)| list_line(x))
    }
}

/// Runs one of the non-interactive modes. `--list` is meant for piping into
/// an external picker (rofi/walker/fzf -dmenu style): one bind per line,
/// "App | Section | Keys | Action". `--json` wins over `--conflicts`, which
/// wins over `--list`.
pub fn run(args: &[String], tabs: &[Tab]) -> (r: Output)
    ensures
        run_output(args@, tabs@, r),
{
    if any_arg(args, "--json") {
        Output::Json(rows_of(tabs))
    } else if any_arg(args, "--conflicts") {
        let cs = conflicts(tabs);
        let lines = conflict_lines(&cs);
        proof {
            let w = cs@.map_values(|c: Collision| c@);
            assert(grouped(colliding_uses(key_uses(tabs@)), w));
            assert(lines@.map_values(|s: String| s@) == conflict_report(w));
        }
        Output::Conflicts(lines)
    } else {
        Output::List(list_lines(tabs))
    }
}

/// Filtering uses by a property of their key keeps all uses of a key that
/// has it and none of a key that lacks it.
proof fn lemma_binds_named_filter(
    s: Seq<(Seq<char>, (Seq<char>, Seq<char>))>,
    us: Seq<(Seq<char>, (Seq<char>, Seq<char>))>,
    k: Seq<char>,
)
    ensures
        binds_named(
            s.filter(|u: (Seq<char>, (Seq<char>, Seq<char>))| several_apps(binds_named(us, u.0))),
            k,
        ) == if several_apps(binds_named(us, k)) {
            binds_named(s, k)
        } else {
            Seq::empty()
        },
    decreases s.len(),
{
    reveal_with_fuel(Seq::filter, 1);
    if s.len() > 0 {
        lemma_binds_named_filter(s.drop_last(), us, k);
        let f = s.drop_last().filter(
            |u: (Seq<char>, (Seq<char>, Seq<char>))| several_apps(binds_named(us, u.0)),
        );
        if several_apps(binds_named(us, s.last().0)) {
            assert(f.push(s.last()).drop_last() == f);
        }
    }
}

/// A key's uses survive the filter exactly when the key is shared.
proof fn lemma_colliding_names(
    s: Seq<(Seq<char>, (Seq<char>, Seq<char>))>,
    us: Seq<(Seq<char>, (Seq<char>, Seq<char>))>,
    k: Seq<char>,
)
    ensures
        row_names(
            s.filter(|u: (Seq<char>, (Seq<char>, Seq<char>))| several_apps(binds_named(us, u.0))),
        ).contains(k) <==> row_names(s).contains(k) && several_apps(binds_named(us, k)),
    decreases s.len(),
{
    reveal_with_fuel(Seq::filter, 1);
    if s.len() > 0 {
        let t = s.drop_last();
        lemma_colliding_names(t, us, k);
        let p = |u: (Seq<char>, (Seq<char>, Seq<char>))| several_apps(binds_named(us, u.0));
        let f = t.filter(p);
        let g = s.filter(p);
        if row_names(g).contains(k) {
            let q = choose|q: int| 0 <= q < g.len() && g[q].0 == k;
            if q < f.len() {
                assert(g[q] == f[q]);
                let q2 = choose|q2: int| 0 <= q2 < t.len() && t[q2].0 == k;
                assert(s[q2] == t[q2]);
            } else {
                assert(g == f.push(s.last()));
                assert(s[s.len() - 1].0 == k);
            }
        }
        if row_names(s).contains(k) && several_apps(binds_named(us, k)) {
            let q = choose|q: int| 0 <= q < s.len() && s[q].0 == k;
            if q < t.len() {
                assert(t[q] == s[q]);
                let q2 = choose|q2: int| 0 <= q2 < f.len() && f[q2].0 == k;
                if p(s.last()) {
                    assert(g == f.push(s.last()));
                    assert(g[q2] == f[q2]);
                } else {
                    assert(g == f);
                }
            } else {
                assert(g == f.push(s.last()));
                assert(g[g.len() - 1].0 == k);
            }
        }
    }
}

/// The collision report is exactly the shared keys: each key in it is used
/// by more than one app and comes with all of its uses, and every key that
/// more than one app uses is in it.
pub proof fn lemma_conflicts_are_shared_keys(tabs: Seq<Tab>, cs: Seq<SectionView>)
    requires
        grouped(colliding_uses(key_uses(tabs)), cs),
    ensures
        forall|i: int|
            0 <= i < cs.len() ==> several_apps(#[trigger] cs[i].1) && cs[i].1 == binds_named(
                key_uses(tabs),
                cs[i].0,
            ),
        forall|k: Seq<char>|
            #[trigger] section_names(cs).contains(k) <==> row_names(key_uses(tabs)).contains(k)
                && several_apps(binds_named(key_uses(tabs), k)),
{
    let us = key_uses(tabs);
    assert forall|i: int| 0 <= i < cs.len() implies several_apps(#[trigger] cs[i].1) && cs[i].1
        == binds_named(us, cs[i].0) by {
        lemma_grouped_binds(colliding_uses(us), cs, i);
        lemma_binds_named_filter(us, us, cs[i].0);
        assert(section_names(cs).contains(cs[i].0));
        lemma_colliding_names(us, us, cs[i].0);
    }
    assert forall|k: Seq<char>| #[trigger] section_names(cs).contains(k) <==> row_names(us).contains(
        k,
    ) && several_apps(binds_named(us, k)) by {
        lemma_colliding_names(us, us, k);
    }
}

} // verus!
