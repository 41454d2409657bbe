//! The interactive browser's state and how each key press changes it.
use vstd::prelude::*;
use crate::model::{
    at_tab_split, fuzzy_result, lemma_whichkey_empty_keeps_all, split_at_tab, str_views,
    whichkey_rows, SearchMode, Tab,
};
use crate::text::{chars_of, eq_str, lowercase, push_char, starts_with, starts_with_exec, string_of, to_lower};
use crate::ui::{spinner_frames, spinner_glyph};

verus! {

/// Rows a half-page scroll moves by.
pub const HALF_PAGE: isize = 10;

/// A key, as far as the browser tells keys apart.
#[derive(Clone, Copy, Debug, PartialEq, Eq, Structural)]
pub enum Key {
    Char(char),
    Esc,
    Enter,
    Backspace,
    Tab,
    BackTab,
    Left,
    Right,
    Up,
    Down,
    Other,
}

/// A key press: the key, and whether Ctrl was held.
#[derive(Clone, Copy, Debug, PartialEq, Eq, Structural)]
pub struct KeyPress {
    pub key: Key,
    pub ctrl: bool,
}

/// The state of the interactive browser.
pub struct App {
    pub tabs: Vec<Tab>,
    /// The tab shown.
    pub active: usize,
    /// The text typed after `/` or `w`.
    pub search: String,
    /// Whether keys go to the search line.
    pub searching: bool,
    pub search_mode: SearchMode,
    /// The highlighted row of the table, if any.
    pub selected: Option<usize>,
    /// The tab that the background nvim dump replaces when it lands.
    pub nvim_idx: usize,
    /// Whether the nvim dump is still awaited.
    pub loading: bool,
    pub spinner_frame: usize,
    /// A first `g` of `gg` was pressed.
    pub pending_g: bool,
}

/// The rows that the search `search` in mode `mode` shows of tab `t`.
pub open spec fn visible_count(t: Tab, mode: SearchMode, search: Seq<char>) -> nat {
    match mode {
        SearchMode::Fuzzy => fuzzy_result(t.rows(), t.alias_views(), search).len(),
        SearchMode::WhichKey => whichkey_rows(t.rows(), search).len(),
    }
}

/// The tab answers to the `@token` selector: its lowercased name or one of
/// its lowercased aliases starts with the lowercased token.
pub open spec fn answers_to(t: Tab, tok: Seq<char>) -> bool {
    ||| starts_with(lowercase(t.app@), lowercase(tok))
    ||| exists|i: int|
        0 <= i < t.aliases@.len() && starts_with(
            lowercase(#[trigger] str_views(t.aliases@)[i]),
            lowercase(tok),
        )
}

/// The index of the first tab answering to `tok`, if any.
pub open spec fn first_answer(tabs: Seq<Tab>, tok: Seq<char>) -> Option<int>
    decreases tabs.len(),
{
    if tabs.len() == 0 {
        None
    } else {
        match first_answer(tabs.drop_last(), tok) {
            Some(i) => Some(i),
            None => if answers_to(tabs.last(), tok) {
                Some(tabs.len() - 1)
            } else {
                None
            },
        }
    }
}

/// The selection after moving by `delta` among `len` rows, wrapping around
/// at both ends; nothing is selected when there are no rows.
pub open spec fn moved(selected: Option<usize>, delta: int, len: nat) -> Option<usize> {
    if len == 0 {
        None
    } else {
        let cur = match selected {
            Some(s) => s as int,
            None => 0,
        };
        Some(((cur + delta) % (len as int)) as usize)
    }
}

/// The selection after scrolling by `delta` among `len` rows, stopping at
/// the first and the last row.
pub open spec fn scrolled(selected: Option<usize>, delta: int, len: nat) -> Option<usize> {
    if len == 0 {
        None
    } else {
        let cur = match selected {
            Some(s) => s as int,
            None => 0,
        };
        let next = if cur + delta < 0 {
            0
        } else if cur + delta > len - 1 {
            len - 1
        } else {
            cur + delta
        };
        Some(next as usize)
    }
}

/// The selection after jumping to row `index` of `len` rows (the last row
/// when `index` is past it).
pub open spec fn jumped(index: usize, len: nat) -> Option<usize> {
    if len == 0 {
        None
    } else if index < len {
        Some(index)
    } else {
        Some((len - 1) as usize)
    }
}

/// The selection a fresh list of `len` rows starts with.
pub open spec fn fresh(len: nat) -> Option<usize> {
    if len == 0 {
        None
    } else {
        Some(0)
    }
}

/// Whether the first tab answering to `tok` is the one at index `i` of
/// `tabs` (to the first `k` tabs).
proof fn lemma_first_answer_extend(tabs: Seq<Tab>, tok: Seq<char>, j: int)
    requires
        0 <= j <= tabs.len(),
        first_answer(tabs.take(j), tok) is Some,
    ensures
        first_answer(tabs, tok) == first_answer(tabs.take(j), tok),
    decreases tabs.len() - j,
{
    if j < tabs.len() {
        assert(tabs.take(j + 1).drop_last() == tabs.take(j));
        lemma_first_answer_extend(tabs, tok, j + 1);
    } else {
        assert(tabs.take(j) == tabs);
    }
}

/// Whether `t` answers to a token whose lowercased characters are `lt`.
fn answers_exec(t: &Tab, tok: &str, lt: &Vec<char>) -> (r: bool)
    requires
        lt@ == lowercase(tok@),
    ensures
        r == answers_to(*t, tok@),
{
    let name = chars_of(to_lower(t.app.as_str()).as_str());
    if starts_with_exec(&name, lt) {
        return true;
    }
    let mut i: usize = 0;
    while i < t.aliases.len()
        invariant
            i <= t.aliases@.len(),
            lt@ == lowercase(tok@),
            forall|j: int|
                0 <= j < i ==> !starts_with(
                    lowercase(#[trigger] str_views(t.aliases@)[j]),
                    lowercase(tok@),
                ),
        decreases t.aliases.len() - i,
    {
        let a = chars_of(to_lower(t.aliases[i]).as_str());
        assert(str_views(t.aliases@)[i as int] == t.aliases@[i as int]@);
        if starts_with_exec(&a, lt) {
            return true;
        }
        i += 1;
    }
    false
}

/// The index of the first tab whose app name is `name`, if any: where a
/// guessed app name puts the browser on launch.
pub fn tab_index(tabs: &[Tab], name: &str) -> (r: Option<usize>)
    ensures
        match r {
            Some(i) => i < tabs@.len() && tabs@[i as int].app@ == name@ && forall|j: int|
                0 <= j < i ==> #[trigger] tabs@[j].app@ != name@,
            None => forall|j: int| 0 <= j < tabs@.len() ==> #[trigger] tabs@[j].app@ != name@,
        },
{
    let mut i: usize = 0;
    while i < tabs.len()
        invariant
            i <= tabs@.len(),
            forall|j: int| 0 <= j < i ==> #[trigger] tabs@[j].app@ != name@,
        decreases tabs.len() - i,
    {
        if eq_str(tabs[i].app.as_str(), name) {
            return Some(i);
        }
        i += 1;
    }
    None
}

/// Stepping to the next and the previous of `n` tabs, wrapping around.
proof fn lemma_cycle(a: int, n: int)
    requires
        0 <= a < n,
    ensures
        (a + 1) % n == (if a + 1 == n {
            0
        } else {
            a + 1
        }),
        (a + n - 1) % n == (if a == 0 {
            n - 1
        } else {
            a - 1
        }),
{
    if a + 1 == n {
        assert((a + 1) % n == 0) by (nonlinear_arith)
            requires
                a + 1 == n,
                n > 0,
        ;
    } else {
        assert((a + 1) % n == a + 1) by (nonlinear_arith)
            requires
                0 <= a + 1 < n,
        ;
    }
    if a == 0 {
        assert((a + n - 1) % n == n - 1) by (nonlinear_arith)
            requires
                a == 0,
                n > 0,
        ;
    } else {
        assert((a + n - 1) % n == a - 1) by (nonlinear_arith)
            requires
                0 < a < n,
        ;
    }
}

/// `next` is `sum` taken modulo `l`, computed on non-negative numbers.
proof fn lemma_wrap(sum: int, l: int, next: int)
    requires
        l > 0,
        sum >= 0 ==> next == sum % l,
        sum < 0 ==> next == (if (-sum) % l == 0 {
            0
        } else {
            l - (-sum) % l
        }),
    ensures
        next == sum % l,
        0 <= next < l,
{
    if sum < 0 {
        let m = -sum;
        let q = m / l;
        let r = m % l;
        assert(m == q * l + r && 0 <= r < l) by (nonlinear_arith)
            requires
                l > 0,
                q == m / l,
                r == m % l,
        ;
        if r == 0 {
            assert(sum == (-q) * l) by (nonlinear_arith)
                requires
                    m == q * l + r,
                    r == 0,
                    sum == -m,
            ;
            assert(sum % l == 0) by (nonlinear_arith)
                requires
                    sum == (-q) * l,
                    l > 0,
            ;
        } else {
            assert(sum == (-q - 1) * l + (l - r)) by (nonlinear_arith)
                requires
                    m == q * l + r,
                    sum == -m,
            ;
            assert(sum % l == l - r) by (nonlinear_arith)
                requires
                    sum == (-q - 1) * l + (l - r),
                    0 < l - r < l,
            ;
        }
    }
}

/// What a key press changes: the shown tab, the search, the mode, the
/// selection and the pending `g`.
pub struct AppView {
    pub active: usize,
    pub search: Seq<char>,
    pub searching: bool,
    pub mode: SearchMode,
    pub selected: Option<usize>,
    pub pending_g: bool,
}

/// The rows the state shows.
pub open spec fn view_count(tabs: Seq<Tab>, v: AppView) -> nat {
    visible_count(tabs[v.active as int], v.mode, at_tab_split(v.search).1)
}

/// The tab shown once an `@token` at the start of `search` is followed.
pub open spec fn synced(tabs: Seq<Tab>, search: Seq<char>, active: usize) -> usize {
    match at_tab_split(search).0 {
        Some(tok) => match first_answer(tabs, tok) {
            Some(i) => i as usize,
            None => active,
        },
        None => active,
    }
}

/// The state after the search text became `search`: the `@tab` selector
/// followed and the selection back at the first row.
pub open spec fn retyped(tabs: Seq<Tab>, v: AppView, search: Seq<char>) -> AppView {
    let w = AppView { search, active: synced(tabs, search, v.active), ..v };
    AppView { selected: fresh(view_count(tabs, w)), ..w }
}

/// A key typed into the search line.
pub open spec fn search_step(tabs: Seq<Tab>, v: AppView, k: KeyPress) -> AppView {
    match k.key {
        Key::Esc => {
            let w = AppView { searching: false, search: Seq::empty(), ..v };
            AppView { selected: fresh(view_count(tabs, w)), ..w }
        },
        Key::Enter => AppView { searching: false, ..v },
        Key::Backspace => retyped(
            tabs,
            v,
            if v.search.len() > 0 {
                v.search.drop_last()
            } else {
                v.search
            },
        ),
        Key::Char(c) => retyped(tabs, v, v.search.push(c)),
        _ => v,
    }
}

/// A key pressed while browsing (the pending `g` already cleared in `v`,
/// `was_g` telling whether it was set).
pub open spec fn browse_step(tabs: Seq<Tab>, v: AppView, k: KeyPress, was_g: bool) -> AppView {
    let n = tabs.len() as int;
    let count = view_count(tabs, v);
    match k.key {
        Key::Tab | Key::Right | Key::Char('l') => {
            let w = AppView { active: ((v.active + 1) % n) as usize, ..v };
            AppView { selected: fresh(view_count(tabs, w)), ..w }
        },
        Key::BackTab | Key::Left | Key::Char('h') => {
            let w = AppView { active: ((v.active + n - 1) % n) as usize, ..v };
            AppView { selected: fresh(view_count(tabs, w)), ..w }
        },
        Key::Char('d') if k.ctrl => AppView { selected: scrolled(v.selected, 10, count), ..v },
        Key::Char('u') if k.ctrl => AppView { selected: scrolled(v.selected, -10, count), ..v },
        Key::Down | Key::Char('j') => AppView { selected: moved(v.selected, 1, count), ..v },
        Key::Up | Key::Char('k') => AppView { selected: moved(v.selected, -1, count), ..v },
        Key::Char('g') => if was_g {
            AppView { selected: jumped(0, count), ..v }
        } else {
            AppView { pending_g: true, ..v }
        },
        Key::Char('G') => AppView {
            selected: jumped(if count > 0 {
                (count - 1) as usize
            } else {
                0
            }, count),
            ..v
        },
        Key::Char('/') => AppView {
            searching: true,
            mode: SearchMode::Fuzzy,
            search: Seq::empty(),
            ..v
        },
        Key::Char('w') => AppView {
            searching: true,
            mode: SearchMode::WhichKey,
            search: Seq::empty(),
            ..v
        },
        _ => v,
    }
}

/// The key quits the browser: `q` or Esc while not typing a search.
pub open spec fn quits(v: AppView, k: KeyPress) -> bool {
    !v.searching && (k.key == Key::Char('q') || k.key == Key::Esc)
}

/// The state after a key press.
pub open spec fn step(tabs: Seq<Tab>, v: AppView, k: KeyPress) -> AppView {
    if v.searching {
        search_step(tabs, v, k)
    } else {
        let w = AppView { pending_g: false, ..v };
        if quits(v, k) {
            w
        } else {
            browse_step(tabs, w, k, v.pending_g)
        }
    }
}

// ---------------------------------------------------------------------------
// Laws of the browser
// ---------------------------------------------------------------------------

/// Moving, scrolling and jumping leave a row of the table selected, or
/// nothing when the table is empty.
pub proof fn lemma_selection_in_range(selected: Option<usize>, delta: int, index: usize, len: nat)
    ensures
        moved(selected, delta, len) is None <==> len == 0,
        moved(selected, delta, len) matches Some(s) ==> s < len,
        scrolled(selected, delta, len) is None <==> len == 0,
        scrolled(selected, delta, len) matches Some(s) ==> s < len,
        jumped(index, len) is None <==> len == 0,
        jumped(index, len) matches Some(s) ==> s < len,
        fresh(len) is None <==> len == 0,
        fresh(len) matches Some(s) ==> s < len,
{
    if len > 0 {
        let cur = match selected {
            Some(s) => s as int,
            None => 0,
        };
        lemma_wrap_range(cur + delta, len as int);
    }
}

/// The Euclidean remainder lies in `0..l`.
proof fn lemma_wrap_range(x: int, l: int)
    requires
        l > 0,
    ensures
        0 <= x % l < l,
{
}

/// Down then up comes back to the same row.
pub proof fn lemma_down_then_up(s: usize, len: nat)
    requires
        s < len <= usize::MAX,
    ensures
        moved(moved(Some(s), 1, len), -1, len) == Some(s),
{
    let n = len as int;
    assert((s + 1) % n == (if s + 1 == n {
        0
    } else {
        s + 1
    })) by (nonlinear_arith)
        requires
            0 <= s < n,
    ;
    let d: int = if s + 1 == n {
        0
    } else {
        s + 1
    };
    assert((d - 1) % n == s) by (nonlinear_arith)
        requires
            0 <= s < n,
            d == (if s + 1 == n {
                0
            } else {
                s + 1
            }),
    ;
}

/// Switching to the next tab and back shows the same tab again, from its
/// first row.
pub proof fn lemma_tab_round_trip(tabs: Seq<Tab>, v: AppView)
    requires
        !v.searching,
        v.active < tabs.len() <= usize::MAX,
    ensures
        ({
            let right = KeyPress { key: Key::Right, ctrl: false };
            let left = KeyPress { key: Key::Left, ctrl: false };
            let w = step(tabs, step(tabs, v, right), left);
            &&& w.active == v.active
            &&& w.selected == fresh(view_count(tabs, v))
            &&& w.search == v.search
            &&& !w.searching
        }),
{
    let n = tabs.len() as int;
    lemma_cycle(v.active as int, n);
    let a1 = (v.active + 1) % n;
    lemma_cycle(a1, n);
    let w1 = step(tabs, v, KeyPress { key: Key::Right, ctrl: false });
    assert(w1.active == a1);
    let w = step(tabs, step(tabs, v, KeyPress { key: Key::Right, ctrl: false }), KeyPress { key: Key::Left, ctrl: false });
    assert(w.active == v.active);
    assert(AppView { pending_g: false, ..w } == AppView { pending_g: false, selected: w.selected, ..v });
}

/// `gg` while browsing jumps to the first row.
pub proof fn lemma_gg_goes_to_top(tabs: Seq<Tab>, v: AppView)
    requires
        !v.searching,
        !v.pending_g,
    ensures
        ({
            let g = KeyPress { key: Key::Char('g'), ctrl: false };
            let w = step(tabs, step(tabs, v, g), g);
            &&& w.selected == fresh(view_count(tabs, v))
            &&& !w.pending_g
            &&& w.active == v.active
        }),
{
    let g = KeyPress { key: Key::Char('g'), ctrl: false };
    let v1 = step(tabs, v, g);
    assert(view_count(tabs, v1) == view_count(tabs, v));
}

/// Typing a character into the search and erasing it gives the search
/// back.
pub proof fn lemma_type_then_erase(tabs: Seq<Tab>, v: AppView, c: char)
    requires
        v.searching,
    ensures
        ({
            let typed = step(tabs, v, KeyPress { key: Key::Char(c), ctrl: false });
            let erased = step(tabs, typed, KeyPress { key: Key::Backspace, ctrl: false });
            &&& erased.search == v.search
            &&& erased.searching
            &&& erased.mode == v.mode
        }),
{
    assert(v.search.push(c).drop_last() == v.search);
}

/// Esc while typing a search drops the search and the search line.
pub proof fn lemma_escape_clears_search(tabs: Seq<Tab>, v: AppView)
    requires
        v.searching,
    ensures
        ({
            let w = step(tabs, v, KeyPress { key: Key::Esc, ctrl: false });
            &&& w.search == Seq::<char>::empty()
            &&& !w.searching
            &&& w.active == v.active
            &&& w.selected == fresh(view_count(tabs, w))
        }),
{
}

/// `w` while browsing starts a fresh which-key search on the same tab: the
/// search line opens empty, in which-key mode, and shows every row of the
/// tab; `/` likewise opens an empty fuzzy search.
pub proof fn lemma_search_keys_start_fresh(tabs: Seq<Tab>, v: AppView, ctrl: bool)
    requires
        !v.searching,
    ensures
        ({
            let w = step(tabs, v, KeyPress { key: Key::Char('w'), ctrl });
            &&& w.searching
            &&& w.mode == SearchMode::WhichKey
            &&& w.search.len() == 0
            &&& w.active == v.active
            &&& view_count(tabs, w) == tabs[v.active as int].rows().len()
        }),
        ({
            let f = step(tabs, v, KeyPress { key: Key::Char('/'), ctrl });
            &&& f.searching
            &&& f.mode == SearchMode::Fuzzy
            &&& f.search.len() == 0
            &&& f.active == v.active
        }),
{
    let w = step(tabs, v, KeyPress { key: Key::Char('w'), ctrl });
    lemma_whichkey_empty_keeps_all(tabs[v.active as int].rows(), w.search);
}

impl App {
    /// The invariant of the browser: there is a tab, and the shown tab and
    /// the nvim tab are tabs.
    pub open spec fn wf(&self) -> bool {
        &&& self.tabs@.len() > 0
        &&& self.active < self.tabs@.len()
        &&& self.nvim_idx < self.tabs@.len()
    }

    /// The search text without a leading `@tab` selector.
    pub open spec fn filter_view(&self) -> Seq<char> {
        at_tab_split(self.search@).1
    }

    /// The number of rows the shown tab shows.
    pub open spec fn count(&self) -> nat {
        visible_count(self.tabs@[self.active as int], self.search_mode, self.filter_view())
    }

    /// A browser on `tabs`, showing tab `active`, with the nvim tab at
    /// `nvim_idx` still loading; the first row is selected.
    pub fn new(tabs: Vec<Tab>, active: usize, nvim_idx: usize) -> (app: App)
        requires
            active < tabs@.len(),
            nvim_idx < tabs@.len(),
        ensures
            app.wf(),
            app.tabs@ == tabs@,
            app.active == active,
            app.search@ == Seq::<char>::empty(),
            !app.searching,
            app.search_mode == SearchMode::Fuzzy,
            app.selected == Some(0usize),
            app.nvim_idx == nvim_idx,
            app.loading,
            app.spinner_frame == 0,
            !app.pending_g,
    {
        App {
            tabs,
            active,
            search: String::new(),
            searching: false,
            search_mode: SearchMode::Fuzzy,
            selected: Some(0),
            nvim_idx,
            loading: true,
            spinner_frame: 0,
            pending_g: false,
        }
    }

    /// The part of the search actually used to filter rows — with a leading
    /// `@tab` tab-selector token stripped off.
    pub fn filter_text(&self) -> (r: &str)
        ensures
            r@ == self.filter_view(),
    {
        split_at_tab(self.search.as_str()).1
    }

    /// The number of rows the shown tab shows.
    pub fn row_count(&self) -> (r: usize)
        requires
            self.wf(),
        ensures
            r == self.count(),
    {
        self.tabs[self.active].filtered_by(self.search_mode, self.filter_text()).len()
    }

    /// While searching, `@token` at the start jumps to the first tab whose
    /// name or alias starts with that token (case-insensitively), so e.g.
    /// typing "@vim scroll" hops to Neovim/Tridactyl and filters for
    /// "scroll" within it.
    pub fn sync_at_tab(&mut self)
        requires
            old(self).wf(),
        ensures
            final(self).wf(),
            final(self).active == match at_tab_split(old(self).search@).0 {
                Some(tok) => match first_answer(old(self).tabs@, tok) {
                    Some(i) => i as usize,
                    None => old(self).active,
                },
                None => old(self).active,
            },
            final(self).tabs@ == old(self).tabs@,
            final(self).search@ == old(self).search@,
            final(self).searching == old(self).searching,
            final(self).search_mode == old(self).search_mode,
            final(self).selected == old(self).selected,
            final(self).pending_g == old(self).pending_g,
            final(self).loading == old(self).loading,
            final(self).nvim_idx == old(self).nvim_idx,
            final(self).spinner_frame == old(self).spinner_frame,
    {
        let split = split_at_tab(self.search.as_str());
        let token = match split.0 {
            Some(t) => t,
            None => {
                return;
            },
        };
        assert(at_tab_split(self.search@).0 == Some(token@));
        let lt = chars_of(to_lower(token).as_str());
        let mut i: usize = 0;
        while i < self.tabs.len()
            invariant
                i <= self.tabs@.len(),
                lt@ == lowercase(token@),
                self.wf(),
                self.tabs@ == old(self).tabs@,
                self.active == old(self).active,
                self.search@ == old(self).search@,
                self.searching == old(self).searching,
                self.search_mode == old(self).search_mode,
                self.selected == old(self).selected,
                self.pending_g == old(self).pending_g,
                self.loading == old(self).loading,
                self.nvim_idx == old(self).nvim_idx,
                self.spinner_frame == old(self).spinner_frame,
                at_tab_split(old(self).search@).0 == Some(token@),
                first_answer(self.tabs@.take(i as int), token@) is None,
            decreases self.tabs.len() - i,
        {
            assert(self.tabs@.take(i as int + 1).drop_last() == self.tabs@.take(i as int));
            assert(self.tabs@.take(i as int + 1).last() == self.tabs@[i as int]);
            if answers_exec(&self.tabs[i], token, &lt) {
                proof {
                    lemma_first_answer_extend(self.tabs@, token@, i as int + 1);
                }
                self.active = i;
                return;
            }
            i += 1;
        }
        assert(self.tabs@.take(i as int) == self.tabs@);
    }

    /// Selects the first row, or nothing when no row is shown.
    pub fn reset_selection(&mut self)
        requires
            old(self).wf(),
        ensures
            final(self).selected == fresh(old(self).count()),
            final(self).tabs@ == old(self).tabs@,
            final(self).active == old(self).active,
            final(self).search@ == old(self).search@,
            final(self).searching == old(self).searching,
            final(self).search_mode == old(self).search_mode,
            final(self).pending_g == old(self).pending_g,
            final(self).loading == old(self).loading,
            final(self).nvim_idx == old(self).nvim_idx,
            final(self).spinner_frame == old(self).spinner_frame,
    {
        let n = self.row_count();
        self.selected = if n == 0 {
            None
        } else {
            Some(0)
        };
    }

    /// Moves the selection by `delta` rows, wrapping around at both ends.
    pub fn move_selection(&mut self, delta: isize)
        requires
            old(self).wf(),
        ensures
            final(self).selected == moved(old(self).selected, delta as int, old(self).count()),
            final(self).tabs@ == old(self).tabs@,
            final(self).active == old(self).active,
            final(self).search@ == old(self).search@,
            final(self).searching == old(self).searching,
            final(self).search_mode == old(self).search_mode,
            final(self).pending_g == old(self).pending_g,
            final(self).loading == old(self).loading,
            final(self).nvim_idx == old(self).nvim_idx,
            final(self).spinner_frame == old(self).spinner_frame,
    {
        let len = self.row_count();
        if len == 0 {
            self.selected = None;
            return;
        }
        let cur: i128 = match self.selected {
            Some(s) => s as i128,
            None => 0,
        };
        let sum: i128 = cur + delta as i128;
        let l: i128 = len as i128;
        let next: i128 = if sum >= 0 {
            sum % l
        } else {
            let m: i128 = -sum;
            let r: i128 = m % l;
            if r == 0 {
                0
            } else {
                l - r
            }
        };
        proof {
            lemma_wrap(sum as int, l as int, next as int);
        }
        self.selected = Some(next as usize);
    }

    /// Moves the selection by `delta` rows, stopping at the first and the
    /// last row.
    pub fn scroll_page(&mut self, delta: isize)
        requires
            old(self).wf(),
        ensures
            final(self).selected == scrolled(old(self).selected, delta as int, old(self).count()),
            final(self).tabs@ == old(self).tabs@,
            final(self).active == old(self).active,
            final(self).search@ == old(self).search@,
            final(self).searching == old(self).searching,
            final(self).search_mode == old(self).search_mode,
            final(self).pending_g == old(self).pending_g,
            final(self).loading == old(self).loading,
            final(self).nvim_idx == old(self).nvim_idx,
            final(self).spinner_frame == old(self).spinner_frame,
    {
        let len = self.row_count();
        if len == 0 {
            self.selected = None;
            return;
        }
        let cur: i128 = match self.selected {
            Some(s) => s as i128,
            None => 0,
        };
        let sum: i128 = cur + delta as i128;
        let last: i128 = len as i128 - 1;
        let next: i128 = if sum < 0 {
            0
        } else if sum > last {
            last
        } else {
            sum
        };
        self.selected = Some(next as usize);
    }

    /// Selects row `index`, or the last row when `index` is past it.
    pub fn jump_to(&mut self, index: usize)
        requires
            old(self).wf(),
        ensures
            final(self).selected == jumped(index, old(self).count()),
            final(self).tabs@ == old(self).tabs@,
            final(self).active == old(self).active,
            final(self).search@ == old(self).search@,
            final(self).searching == old(self).searching,
            final(self).search_mode == old(self).search_mode,
            final(self).pending_g == old(self).pending_g,
            final(self).loading == old(self).loading,
            final(self).nvim_idx == old(self).nvim_idx,
            final(self).spinner_frame == old(self).spinner_frame,
    {
        let len = self.row_count();
        if len == 0 {
            self.selected = None;
            return;
        }
        self.selected = Some(if index < len {
            index
        } else {
            len - 1
        });
    }
    /// The part of the state that key presses change.
    pub open spec fn view(&self) -> AppView {
        AppView {
            active: self.active,
            search: self.search@,
            searching: self.searching,
            mode: self.search_mode,
            selected: self.selected,
            pending_g: self.pending_g,
        }
    }

    /// Handles one key press; returns whether it quits the browser.
    pub fn handle_key(&mut self, key: KeyPress) -> (quit: bool)
        requires
            old(self).wf(),
        ensures
            final(self).wf(),
            quit == quits(old(self).view(), key),
            final(self).view() == step(old(self).tabs@, old(self).view(), key),
            !old(self).searching && key.key == Key::Char('w') ==> {
                &&& final(self).searching
                &&& final(self).search_mode == SearchMode::WhichKey
                &&& final(self).search@.len() == 0
                &&& final(self).active == old(self).active
                &&& final(self).count() == old(self).tabs@[old(self).active as int].rows().len()
            },
            !old(self).searching && key.key == Key::Char('/') ==> {
                &&& final(self).searching
                &&& final(self).search_mode == SearchMode::Fuzzy
                &&& final(self).search@.len() == 0
                &&& final(self).active == old(self).active
            },
            final(self).tabs@ == old(self).tabs@,
            final(self).loading == old(self).loading,
            final(self).nvim_idx == old(self).nvim_idx,
            final(self).spinner_frame == old(self).spinner_frame,
    {
        if self.searching {
            match key.key {
                Key::Esc => {
                    self.searching = false;
                    self.search = String::new();
                    self.reset_selection();
                },
                Key::Enter => {
                    self.searching = false;
                },
                Key::Backspace => {
                    let v = chars_of(self.search.as_str());
                    if v.len() > 0 {
                        self.search = string_of(&v, 0, v.len() - 1);
                    } else {
                        assert(v@.subrange(0, 0) == v@);
                    }
                    self.sync_at_tab();
                    self.reset_selection();
                },
                Key::Char(c) => {
                    push_char(&mut self.search, c);
                    self.sync_at_tab();
                    self.reset_selection();
                },
                _ => {},
            }
            return false;
        }
        let was_pending_g = self.pending_g;
        self.pending_g = false;
        let n = self.tabs.len();
        proof {
            lemma_cycle(self.active as int, n as int);
        }
        match key.key {
            Key::Char('q') | Key::Esc => {
                return true;
            },
            Key::Tab | Key::Right | Key::Char('l') => {
                self.active = if self.active + 1 == n {
                    0
                } else {
                    self.active + 1
                };
                self.reset_selection();
            },
            Key::BackTab | Key::Left | Key::Char('h') => {
                self.active = if self.active == 0 {
                    n - 1
                } else {
                    self.active - 1
                };
                self.reset_selection();
            },
            Key::Char('d') if key.ctrl => {
                self.scroll_page(HALF_PAGE);
            },
            Key::Char('u') if key.ctrl => {
                self.scroll_page(-HALF_PAGE);
            },
            Key::Down | Key::Char('j') => {
                self.move_selection(1);
            },
            Key::Up | Key::Char('k') => {
                self.move_selection(-1);
            },
            Key::Char('g') => {
                if was_pending_g {
                    self.jump_to(0);
                } else {
                    self.pending_g = true;
                }
            },
            Key::Char('G') => {
                let count = self.row_count();
                self.jump_to(if count > 0 {
                    count - 1
                } else {
                    0
                });
            },
            Key::Char('/') => {
                self.searching = true;
                self.search_mode = SearchMode::Fuzzy;
                self.search = String::new();
            },
            Key::Char('w') => {
                self.searching = true;
                self.search_mode = SearchMode::WhichKey;
                self.search = String::new();
                proof {
                    lemma_whichkey_empty_keeps_all(self.tabs@[self.active as int].rows(), self.search@);
                }
            },
            _ => {},
        }
        false
    }
    /// Puts the tab from the finished nvim dump in place of the placeholder;
    /// when it is the shown tab, the selection starts over.
    pub fn receive_nvim(&mut self, tab: Tab)
        requires
            old(self).wf(),
        ensures
            final(self).wf(),
            final(self).tabs@ == old(self).tabs@.update(old(self).nvim_idx as int, tab),
            !final(self).loading,
            final(self).selected == (if old(self).active == old(self).nvim_idx {
                fresh(final(self).count())
            } else {
                old(self).selected
            }),
            final(self).active == old(self).active,
            final(self).search@ == old(self).search@,
            final(self).searching == old(self).searching,
            final(self).search_mode == old(self).search_mode,
            final(self).pending_g == old(self).pending_g,
            final(self).nvim_idx == old(self).nvim_idx,
            final(self).spinner_frame == old(self).spinner_frame,
    {
        let i = self.nvim_idx;
        self.tabs.set(i, tab);
        self.loading = false;
        if self.active == self.nvim_idx {
            self.reset_selection();
        }
    }

    /// A tick with no key pressed: the spinner turns while loading.
    pub fn tick(&mut self)
        ensures
            final(self).spinner_frame == (if !old(self).loading {
                old(self).spinner_frame
            } else if old(self).spinner_frame == usize::MAX {
                0
            } else {
                (old(self).spinner_frame + 1) as usize
            }),
            final(self).tabs@ == old(self).tabs@,
            final(self).view() == old(self).view(),
            final(self).loading == old(self).loading,
            final(self).nvim_idx == old(self).nvim_idx,
    {
        if self.loading {
            self.spinner_frame = self.spinner_frame.wrapping_add(1);
        }
    }

    /// The spinner frame to show, while loading.
    pub fn spinner(&self) -> (r: Option<&'static str>)
        ensures
            self.loading ==> r == Some(spinner_frames()[self.spinner_frame as int % 10]),
            !self.loading ==> r is None,
    {
        if self.loading {
            Some(spinner_glyph(self.spinner_frame))
        } else {
            None
        }
    }
}

} // verus!
