//! Tabs of keybinds, and the two ways of searching them.
use vstd::prelude::*;
use crate::text::{
    is_ws, lemma_find_ws_props, lemma_leading_ws_props, lemma_starts_with_trans, leading_ws,
    occurs_at, chars_of, contains, contains_exec, find_ws, find_ws_in, join, lemma_split_nonempty,
    lowercase, owned, push_char, split, split_str, starts_with, starts_with_exec, strip_whitespace,
    strip_ws, to_lower, trim_start, views, words, words_str, ws_prefix_len,
};

verus! {

/// One keybind: the key chord and what it does.
#[derive(Clone, Debug)]
pub struct Bind {
    pub keys: String,
    pub action: String,
}

/// A named group of keybinds.
#[derive(Clone, Debug)]
pub struct Section {
    pub name: String,
    pub binds: Vec<Bind>,
}

#[derive(Clone, Copy, Debug, PartialEq, Eq, Structural)]
pub enum SearchMode {
    /// `/` — multi-word substring/fuzzy match across section, keys, action.
    Fuzzy,
    /// `w` — which-key style: typed chars must prefix-match the actual key
    /// chord, narrowing live as you "press" it.
    WhichKey,
}

/// The live state of the `/` / `w` input line, handed to the renderer as one
/// value instead of three separate parameters.
pub struct SearchState<'a> {
    pub text: &'a str,
    pub active: bool,
    pub mode: SearchMode,
}

/// All the keybinds of one application.
#[derive(Clone, Debug)]
pub struct Tab {
    pub app: String,
    pub window_class: &'static [&'static str],
    /// Extra search terms that don't show up in the table but count as a
    /// match for the whole tab — e.g. Tridactyl's app name won't contain
    /// "vim" or "firefox", but people search those words for it.
    pub aliases: &'static [&'static str],
    pub sections: Vec<Section>,
}

/// Section name -> list of (keys, action) pairs, the shape every static
/// source table is hand-written in.
pub type RawSections<'a> = &'a [(&'a str, &'a [(&'a str, &'a str)])];

/// A section as (name, binds as (keys, action)).
pub type SectionView = (Seq<char>, Seq<(Seq<char>, Seq<char>)>);

/// A row of a tab as the searches see it: (section name, keys, action).
pub type RowView = (Seq<char>, Seq<char>, Seq<char>);

impl View for Bind {
    type V = (Seq<char>, Seq<char>);

    open spec fn view(&self) -> (Seq<char>, Seq<char>) {
        (self.keys@, self.action@)
    }
}

impl View for Section {
    type V = (Seq<char>, Seq<(Seq<char>, Seq<char>)>);

    open spec fn view(&self) -> (Seq<char>, Seq<(Seq<char>, Seq<char>)>) {
        (self.name@, self.binds@.map_values(|b: Bind| b@))
    }
}

/// The views of a list of static strings.
pub open spec fn str_views(s: Seq<&str>) -> Seq<Seq<char>> {
    s.map_values(|x: &str| x@)
}

/// The view of one row of a static table.
pub open spec fn raw_bind_view(b: (&str, &str)) -> (Seq<char>, Seq<char>) {
    (b.0@, b.1@)
}

/// The view of one section of a static table.
pub open spec fn raw_section_view(s: (&str, &[(&str, &str)])) -> (
    Seq<char>,
    Seq<(Seq<char>, Seq<char>)>,
) {
    (s.0@, s.1@.map_values(|b: (&str, &str)| raw_bind_view(b)))
}

/// The rows of one section, in order.
pub open spec fn section_rows(s: (Seq<char>, Seq<(Seq<char>, Seq<char>)>)) -> Seq<RowView> {
    s.1.map_values(|b: (Seq<char>, Seq<char>)| (s.0, b.0, b.1))
}

/// The rows of a list of sections, section after section.
pub open spec fn flat_rows(secs: Seq<(Seq<char>, Seq<(Seq<char>, Seq<char>)>)>) -> Seq<RowView>
    decreases secs.len(),
{
    if secs.len() == 0 {
        Seq::empty()
    } else {
        flat_rows(secs.drop_last()) + section_rows(secs.last())
    }
}

/// The view of a row handed out by a search.
pub open spec fn row_view(r: (&str, &Bind)) -> RowView {
    (r.0@, r.1.keys@, r.1.action@)
}

/// The views of the rows handed out by a search.
pub open spec fn rows_view(rs: Seq<(&str, &Bind)>) -> Seq<RowView> {
    rs.map_values(|r: (&str, &Bind)| row_view(r))
}

// ---------------------------------------------------------------------------
// Fuzzy search
// ---------------------------------------------------------------------------

/// Every character of `needle` appears in `hay`, in order, not necessarily
/// next to each other (each one matched to its first occurrence after the
/// previous match).
pub open spec fn is_subseq(needle: Seq<char>, hay: Seq<char>) -> bool
    decreases hay.len(),
{
    if needle.len() == 0 {
        true
    } else if hay.len() == 0 {
        false
    } else if needle[0] == hay[0] {
        is_subseq(needle.drop_first(), hay.drop_first())
    } else {
        is_subseq(needle, hay.drop_first())
    }
}

/// What one search word scores against a row's text: 2 as a substring,
/// 1 as a subsequence only, 0 (no match) otherwise.
pub open spec fn word_score(w: Seq<char>, hay: Seq<char>) -> int {
    if contains(hay, w) {
        2
    } else if is_subseq(w, hay) {
        1
    } else {
        0
    }
}

/// The score of a row's text against all search words, or `None` when some
/// word does not match.
pub open spec fn row_score(ws: Seq<Seq<char>>, hay: Seq<char>) -> Option<int>
    decreases ws.len(),
{
    if ws.len() == 0 {
        Some(0)
    } else {
        match row_score(ws.drop_last(), hay) {
            Some(s) => if word_score(ws.last(), hay) > 0 {
                Some(s + word_score(ws.last(), hay))
            } else {
                None
            },
            None => None,
        }
    }
}

/// The text a row is searched in: its section, keys and action lowercased,
/// then the tab's lowercased aliases, separated by single spaces.
pub open spec fn haystack(r: RowView, alias_text: Seq<char>) -> Seq<char> {
    lowercase(r.0) + seq![' '] + lowercase(r.1) + seq![' '] + lowercase(r.2) + seq![' ']
        + alias_text
}

/// The matching rows of `rows`, each with its score, in table order.
pub open spec fn scored_rows(ws: Seq<Seq<char>>, alias_text: Seq<char>, rows: Seq<RowView>) -> Seq<
    (int, RowView),
>
    decreases rows.len(),
{
    if rows.len() == 0 {
        Seq::empty()
    } else {
        let prev = scored_rows(ws, alias_text, rows.drop_last());
        match row_score(ws, haystack(rows.last(), alias_text)) {
            Some(s) => prev.push((s, rows.last())),
            None => prev,
        }
    }
}

/// The rows of `scored` whose score is `k`, in order.
pub open spec fn rows_scoring(scored: Seq<(int, RowView)>, k: int) -> Seq<RowView>
    decreases scored.len(),
{
    if scored.len() == 0 {
        Seq::empty()
    } else if scored.last().0 == k {
        rows_scoring(scored.drop_last(), k).push(scored.last().1)
    } else {
        rows_scoring(scored.drop_last(), k)
    }
}

/// The rows of `scored` with scores from `hi` down to `lo`: the highest
/// scores first, rows of equal score in table order.
pub open spec fn ranked(scored: Seq<(int, RowView)>, hi: int, lo: int) -> Seq<RowView>
    decreases hi - lo + 1,
{
    if hi < lo {
        Seq::empty()
    } else {
        ranked(scored, hi, lo + 1) + rows_scoring(scored, lo)
    }
}

/// The search words of a fuzzy search: the lowercased search split at
/// whitespace.
pub open spec fn search_words(search: Seq<char>) -> Seq<Seq<char>> {
    words(lowercase(search))
}

/// The lowercased aliases of a tab, joined by spaces.
pub open spec fn alias_text(aliases: Seq<Seq<char>>) -> Seq<char> {
    lowercase(join(aliases, seq![' ']))
}

/// What a fuzzy search of `rows` for `search` shows: the rows in which every
/// search word matches, best score first (each word scoring 1 or 2, so the
/// score lies between `n` and `2 * n` for `n` words).
pub open spec fn fuzzy_result(rows: Seq<RowView>, aliases: Seq<Seq<char>>, search: Seq<char>) -> Seq<
    RowView,
> {
    let ws = search_words(search);
    ranked(scored_rows(ws, alias_text(aliases), rows), (2 * ws.len()) as int, ws.len() as int)
}

// ---------------------------------------------------------------------------
// Which-key search
// ---------------------------------------------------------------------------

/// The `/`-separated alternatives of a key chord, whitespace removed.
pub open spec fn alternatives(keys: Seq<char>) -> Seq<Seq<char>> {
    split(keys, '/').map_values(|a: Seq<char>| strip_ws(a))
}

/// Some alternative of `keys` starts with `buffer`, whitespace ignored.
pub open spec fn whichkey_match(keys: Seq<char>, buffer: Seq<char>) -> bool {
    exists|i: int|
        0 <= i < alternatives(keys).len() && starts_with(
            #[trigger] alternatives(keys)[i],
            strip_ws(buffer),
        )
}

/// The rows a which-key search for `buffer` keeps, in order.
pub open spec fn whichkey_rows(rows: Seq<RowView>, buffer: Seq<char>) -> Seq<RowView> {
    rows.filter(|r: RowView| whichkey_match(r.1, buffer))
}

// ---------------------------------------------------------------------------
// `@tab` selector
// ---------------------------------------------------------------------------

/// What `split_at_tab` returns for `search`: the token after a leading `@`
/// up to the first whitespace, and the rest with its leading whitespace
/// removed; no token (and the search unchanged) if there is no leading `@`
/// or the token would be empty.
pub open spec fn at_tab_split(search: Seq<char>) -> (Option<Seq<char>>, Seq<char>) {
    if search.len() == 0 || search[0] != '@' {
        (None, search)
    } else {
        let rest = search.drop_first();
        let end = match find_ws(rest) {
            Some(i) => i,
            None => rest.len() as int,
        };
        if end == 0 {
            (None, search)
        } else {
            (Some(rest.take(end)), trim_start(rest.skip(end)))
        }
    }
}


/// The character sequences of a list of words.
pub open spec fn char_views(v: Seq<Vec<char>>) -> Seq<Seq<char>> {
    v.map_values(|x: Vec<char>| x@)
}

/// Whether every character of `needle` appears in `hay` in order.
fn subseq_chars(needle: &Vec<char>, hay: &Vec<char>) -> (r: bool)
    ensures
        r == is_subseq(needle@, hay@),
{
    let mut k: usize = 0;
    let mut i: usize = 0;
    assert(needle@.skip(0) == needle@);
    assert(hay@.skip(0) == hay@);
    while i < hay.len()
        invariant
            k <= needle@.len(),
            i <= hay@.len(),
            is_subseq(needle@.skip(k as int), hay@.skip(i as int)) == is_subseq(needle@, hay@),
        decreases hay.len() - i,
    {
        if k == needle.len() {
            return true;
        }
        assert(needle@.skip(k as int)[0] == needle@[k as int]);
        assert(hay@.skip(i as int)[0] == hay@[i as int]);
        assert(needle@.skip(k as int).drop_first() == needle@.skip(k + 1));
        assert(hay@.skip(i as int).drop_first() == hay@.skip(i + 1));
        if needle[k] == hay[i] {
            k += 1;
        }
        i += 1;
    }
    k == needle.len()
}

/// True if every char of `needle` appears in `haystack` in order (not
/// necessarily contiguous) — a cheap fzf-style fuzzy match.
pub fn is_subsequence(needle: &str, haystack: &str) -> (r: bool)
    ensures
        r == is_subseq(needle@, haystack@),
{
    subseq_chars(&chars_of(needle), &chars_of(haystack))
}

/// The number of words found as substrings of `hay`, when every word is
/// found as a substring or a subsequence; `None` otherwise.
fn match_hits(ws: &Vec<Vec<char>>, hay: &Vec<char>) -> (r: Option<usize>)
    ensures
        match r {
            Some(h) => h <= ws@.len() && row_score(char_views(ws@), hay@) == Some(
                ws@.len() + h,
            ),
            None => row_score(char_views(ws@), hay@) is None,
        },
{
    let mut hits: usize = 0;
    let mut j: usize = 0;
    while j < ws.len()
        invariant
            j <= ws@.len(),
            hits <= j,
            row_score(char_views(ws@).take(j as int), hay@) == Some(j + hits),
        decreases ws.len() - j,
    {
        assert(char_views(ws@).take(j as int + 1).drop_last() == char_views(ws@).take(j as int));
        assert(char_views(ws@).take(j as int + 1).last() == ws@[j as int]@);
        if contains_exec(hay, &ws[j]) {
            hits += 1;
        } else if subseq_chars(&ws[j], hay) {
        } else {
            assert(row_score(char_views(ws@), hay@) is None) by {
                lemma_row_score_none(char_views(ws@), hay@, j as int + 1);
            }
            return None;
        }
        j += 1;
    }
    assert(char_views(ws@).take(j as int) == char_views(ws@));
    Some(hits)
}

/// Once a prefix of the words fails to match, so do all the words.
proof fn lemma_row_score_none(ws: Seq<Seq<char>>, hay: Seq<char>, j: int)
    requires
        0 <= j <= ws.len(),
        row_score(ws.take(j), hay) is None,
    ensures
        row_score(ws, hay) is None,
    decreases ws.len() - j,
{
    if j < ws.len() {
        assert(ws.take(j + 1).drop_last() == ws.take(j));
        lemma_row_score_none(ws, hay, j + 1);
    } else {
        assert(ws.take(j) == ws);
    }
}

/// `aliases.join(" ")`.
fn join_aliases(aliases: &[&str]) -> (r: String)
    ensures
        r@ == join(str_views(aliases@), seq![' ']),
{
    let mut r = String::new();
    let mut j: usize = 0;
    while j < aliases.len()
        invariant
            j <= aliases@.len(),
            r@ == join(str_views(aliases@).take(j as int), seq![' ']),
        decreases aliases.len() - j,
    {
        let ghost before = str_views(aliases@).take(j as int);
        if j > 0 {
            push_char(&mut r, ' ');
        }
        r.append(aliases[j]);
        assert(str_views(aliases@).take(j as int + 1).drop_last() == before);
        assert(str_views(aliases@).take(j as int + 1).last() == aliases@[j as int]@);
        j += 1;
    }
    assert(str_views(aliases@).take(j as int) == str_views(aliases@));
    r
}

/// The text a row is searched in.
fn row_haystack(section: &str, bind: &Bind, alias_text: &str) -> (r: Vec<char>)
    ensures
        r@ == haystack(row_view((section, bind)), alias_text@),
{
    let mut h = to_lower(section);
    push_char(&mut h, ' ');
    h.append(to_lower(bind.keys.as_str()).as_str());
    push_char(&mut h, ' ');
    h.append(to_lower(bind.action.as_str()).as_str());
    push_char(&mut h, ' ');
    h.append(alias_text);
    chars_of(h.as_str())
}

/// Adding the next lower score level to a ranking.
proof fn lemma_ranked_step(scored: Seq<(int, RowView)>, hi: int, lo: int)
    requires
        lo <= hi,
    ensures
        ranked(scored, hi, lo) == ranked(scored, hi, lo + 1) + rows_scoring(scored, lo),
{
}

/// The `/`-separated alternatives of `keys`, with whitespace removed.
fn normalized_alts(keys: &str) -> (r: Vec<String>)
    ensures
        views(r@) == alternatives(keys@),
{
    let parts = split_str(keys, '/');
    let mut r: Vec<String> = Vec::new();
    let mut j: usize = 0;
    while j < parts.len()
        invariant
            j <= parts@.len(),
            views(parts@) == split(keys@, '/'),
            views(r@) == split(keys@, '/').take(j as int).map_values(|a: Seq<char>| strip_ws(a)),
        decreases parts.len() - j,
    {
        let ghost before = r@;
        r.push(strip_whitespace(parts[j].as_str()));
        assert(views(r@) == views(before).push(strip_ws(parts@[j as int]@)));
        assert(split(keys@, '/').take(j as int + 1) == split(keys@, '/').take(j as int).push(
            parts@[j as int]@,
        ));
        j += 1;
    }
    assert(split(keys@, '/').take(j as int) == split(keys@, '/'));
    r
}

/// Whether some alternative of `keys` starts with `buffer` (whitespace
/// already removed from `buffer`).
fn whichkey_hit(keys: &str, buffer: &Vec<char>) -> (r: bool)
    ensures
        r == exists|i: int|
            0 <= i < alternatives(keys@).len() && starts_with(
                #[trigger] alternatives(keys@)[i],
                buffer@,
            ),
{
    let alts = normalized_alts(keys);
    let mut j: usize = 0;
    while j < alts.len()
        invariant
            j <= alts@.len(),
            views(alts@) == alternatives(keys@),
            forall|i: int| 0 <= i < j ==> !starts_with(#[trigger] alternatives(keys@)[i], buffer@),
        decreases alts.len() - j,
    {
        let a = chars_of(alts[j].as_str());
        if starts_with_exec(&a, buffer) {
            assert(alternatives(keys@)[j as int] == a@);
            return true;
        }
        assert(alternatives(keys@)[j as int] == a@);
        j += 1;
    }
    false
}

/// With nothing typed, which-key search keeps every row.
pub proof fn lemma_whichkey_empty_keeps_all(rows: Seq<RowView>, buffer: Seq<char>)
    requires
        strip_ws(buffer).len() == 0,
    ensures
        whichkey_rows(rows, buffer) == rows,
    decreases rows.len(),
{
    reveal_with_fuel(Seq::filter, 1);
    if rows.len() > 0 {
        lemma_whichkey_empty_keeps_all(rows.drop_last(), buffer);
        let keys = rows.last().1;
        lemma_split_nonempty(keys, '/');
        assert(strip_ws(buffer) =~= Seq::<char>::empty());
        assert(alternatives(keys)[0].take(0) =~= Seq::<char>::empty());
        assert(starts_with(alternatives(keys)[0], strip_ws(buffer)));
        assert(whichkey_match(keys, buffer));
    }
}

/// If `search` starts with `@token`, splits it into the tab-selector token
/// and the remaining filter text (e.g. "@vim scroll" -> (Some("vim"),
/// "scroll")). Otherwise returns (None, search) unchanged.
pub fn split_at_tab(search: &str) -> (r: (Option<&str>, &str))
    ensures
        (match r.0 {
            Some(t) => Some(t@),
            None => None,
        }, r.1@) == at_tab_split(search@),
{
    let v = chars_of(search);
    if v.len() == 0 || v[0] != '@' {
        return (None, search);
    }
    let n = v.len();
    let ghost rest = search@.drop_first();
    assert(v@.subrange(1, n as int) == rest);
    let end: usize = match find_ws_in(&v, 1, n) {
        Some(k) => k,
        None => n - 1,
    };
    if end == 0 {
        return (None, search);
    }
    let token = search.substring_char(1, 1 + end);
    let lead = ws_prefix_len(&v, 1 + end, n);
    assert(rest.skip(end as int) == v@.subrange(1 + end, n as int));
    assert(rest.take(end as int) == v@.subrange(1, 1 + end));
    let remainder = search.substring_char(1 + end + lead, n);
    (Some(token), remainder)
}

// ---------------------------------------------------------------------------
// What a fuzzy search shows
// ---------------------------------------------------------------------------

/// Every search word occurs in `hay` as a substring or a subsequence.
pub open spec fn all_words_match(ws: Seq<Seq<char>>, hay: Seq<char>) -> bool {
    forall|i: int| 0 <= i < ws.len() ==> word_score(#[trigger] ws[i], hay) > 0
}

/// The rows of `rows` in which every search word matches, in table order.
pub open spec fn matching(ws: Seq<Seq<char>>, at: Seq<char>, rows: Seq<RowView>) -> Seq<RowView> {
    rows.filter(|r: RowView| all_words_match(ws, haystack(r, at)))
}

/// The score of row `r`: 2 for each word found as a substring, 1 for each
/// found only as a subsequence.
pub open spec fn score_of(ws: Seq<Seq<char>>, at: Seq<char>, r: RowView) -> int {
    match row_score(ws, haystack(r, at)) {
        Some(s) => s,
        None => 0,
    }
}

/// A row scores exactly when all words match, between 1 and 2 per word.
proof fn lemma_row_score(ws: Seq<Seq<char>>, hay: Seq<char>)
    ensures
        row_score(ws, hay) is Some <==> all_words_match(ws, hay),
        row_score(ws, hay) matches Some(s) ==> ws.len() <= s <= 2 * ws.len(),
    decreases ws.len(),
{
    if ws.len() > 0 {
        let t = ws.drop_last();
        lemma_row_score(t, hay);
        if all_words_match(ws, hay) {
            assert forall|i: int| 0 <= i < t.len() implies word_score(#[trigger] t[i], hay) > 0 by {
                assert(t[i] == ws[i]);
            }
            assert(word_score(ws[ws.len() - 1], hay) > 0);
        }
        if all_words_match(t, hay) && word_score(ws.last(), hay) > 0 {
            assert forall|i: int| 0 <= i < ws.len() implies word_score(#[trigger] ws[i], hay) > 0 by {
                if i < t.len() {
                    assert(t[i] == ws[i]);
                }
            }
        }
        if !all_words_match(t, hay) {
            let i = choose|i: int| 0 <= i < t.len() && !(word_score(#[trigger] t[i], hay) > 0);
            assert(t[i] == ws[i]);
        }
    }
}

/// The scored rows are the matching rows, each with its score.
proof fn lemma_scored_rows(ws: Seq<Seq<char>>, at: Seq<char>, rows: Seq<RowView>)
    ensures
        scored_rows(ws, at, rows).map_values(|p: (int, RowView)| p.1) == matching(ws, at, rows),
        forall|i: int|
            0 <= i < scored_rows(ws, at, rows).len() ==> row_score(
                ws,
                haystack(#[trigger] scored_rows(ws, at, rows)[i].1, at),
            ) == Some(scored_rows(ws, at, rows)[i].0),
    decreases rows.len(),
{
    reveal_with_fuel(Seq::filter, 1);
    if rows.len() > 0 {
        let t = rows.drop_last();
        lemma_scored_rows(ws, at, t);
        lemma_row_score(ws, haystack(rows.last(), at));
        let prev = scored_rows(ws, at, t);
        let cur = scored_rows(ws, at, rows);
        assert(cur.map_values(|p: (int, RowView)| p.1) =~= matching(ws, at, rows)) by {
            if row_score(ws, haystack(rows.last(), at)) is Some {
                assert(cur.map_values(|p: (int, RowView)| p.1) =~= prev.map_values(
                    |p: (int, RowView)| p.1,
                ).push(rows.last()));
            }
        }
        assert forall|i: int| 0 <= i < cur.len() implies row_score(
            ws,
            haystack(#[trigger] cur[i].1, at),
        ) == Some(cur[i].0) by {
            if i < prev.len() {
                assert(cur[i] == prev[i]);
            }
        }
    }
}

/// The scored rows whose score lies between `lo` and `hi`.
pub open spec fn scored_within(sc: Seq<(int, RowView)>, lo: int, hi: int) -> Seq<RowView>
    decreases sc.len(),
{
    if sc.len() == 0 {
        Seq::empty()
    } else if lo <= sc.last().0 <= hi {
        scored_within(sc.drop_last(), lo, hi).push(sc.last().1)
    } else {
        scored_within(sc.drop_last(), lo, hi)
    }
}

/// Taking the lowest score level off a range of scores.
proof fn lemma_within_split(sc: Seq<(int, RowView)>, lo: int, hi: int)
    requires
        lo <= hi,
    ensures
        scored_within(sc, lo, hi).to_multiset() == scored_within(sc, lo + 1, hi).to_multiset().add(
            rows_scoring(sc, lo).to_multiset(),
        ),
    decreases sc.len(),
{
    broadcast use vstd::seq_lib::group_to_multiset_ensures;
    broadcast use vstd::multiset::group_multiset_axioms;

    if sc.len() > 0 {
        lemma_within_split(sc.drop_last(), lo, hi);
        assert(scored_within(sc, lo, hi).to_multiset() =~= scored_within(sc, lo + 1, hi).to_multiset().add(
            rows_scoring(sc, lo).to_multiset(),
        ));
    } else {
        assert(scored_within(sc, lo, hi).to_multiset() =~= scored_within(sc, lo + 1, hi).to_multiset().add(
            rows_scoring(sc, lo).to_multiset(),
        ));
    }
}

/// An empty range of scores holds no rows.
proof fn lemma_within_empty(sc: Seq<(int, RowView)>, lo: int, hi: int)
    requires
        hi < lo,
    ensures
        scored_within(sc, lo, hi) == Seq::<RowView>::empty(),
    decreases sc.len(),
{
    if sc.len() > 0 {
        lemma_within_empty(sc.drop_last(), lo, hi);
    }
}

/// A ranking holds the rows of its range of scores.
proof fn lemma_ranked_multiset(sc: Seq<(int, RowView)>, hi: int, lo: int)
    ensures
        ranked(sc, hi, lo).to_multiset() == scored_within(sc, lo, hi).to_multiset(),
    decreases hi - lo + 1,
{
    broadcast use vstd::seq_lib::lemma_multiset_commutative;

    if hi < lo {
        lemma_within_empty(sc, lo, hi);
    } else {
        lemma_ranked_multiset(sc, hi, lo + 1);
        lemma_within_split(sc, lo, hi);
    }
}

/// With all scores in range, the range holds every scored row.
proof fn lemma_within_all(sc: Seq<(int, RowView)>, lo: int, hi: int)
    requires
        forall|i: int| 0 <= i < sc.len() ==> lo <= #[trigger] sc[i].0 <= hi,
    ensures
        scored_within(sc, lo, hi) == sc.map_values(|p: (int, RowView)| p.1),
    decreases sc.len(),
{
    if sc.len() > 0 {
        let t = sc.drop_last();
        assert forall|i: int| 0 <= i < t.len() implies lo <= #[trigger] t[i].0 <= hi by {
            assert(t[i] == sc[i]);
        }
        lemma_within_all(t, lo, hi);
        assert(sc.last() == sc[sc.len() - 1]);
        assert(sc.map_values(|p: (int, RowView)| p.1) =~= t.map_values(|p: (int, RowView)| p.1).push(
            sc.last().1,
        ));
    }
}

/// Every row of a score level carries that score.
proof fn lemma_level_scores(ws: Seq<Seq<char>>, at: Seq<char>, sc: Seq<(int, RowView)>, k: int)
    requires
        forall|i: int| 0 <= i < sc.len() ==> row_score(ws, haystack(#[trigger] sc[i].1, at)) == Some(sc[i].0),
    ensures
        forall|i: int|
            0 <= i < rows_scoring(sc, k).len() ==> row_score(
                ws,
                haystack(#[trigger] rows_scoring(sc, k)[i], at),
            ) == Some(k),
    decreases sc.len(),
{
    if sc.len() > 0 {
        let t = sc.drop_last();
        assert forall|i: int| 0 <= i < t.len() implies row_score(ws, haystack(#[trigger] t[i].1, at))
            == Some(t[i].0) by {
            assert(t[i] == sc[i]);
        }
        lemma_level_scores(ws, at, t, k);
        assert(sc.last() == sc[sc.len() - 1]);
    }
}

/// A ranking lists its rows best score first, all within its range.
proof fn lemma_ranked_sorted(ws: Seq<Seq<char>>, at: Seq<char>, sc: Seq<(int, RowView)>, hi: int, lo: int)
    requires
        forall|i: int| 0 <= i < sc.len() ==> row_score(ws, haystack(#[trigger] sc[i].1, at)) == Some(sc[i].0),
    ensures
        forall|i: int|
            0 <= i < ranked(sc, hi, lo).len() ==> (row_score(ws, haystack(#[trigger] ranked(sc, hi, lo)[i], at))
                matches Some(s) && lo <= s <= hi),
        forall|i: int, j: int|
            0 <= i < j < ranked(sc, hi, lo).len() ==> score_of(ws, at, #[trigger] ranked(sc, hi, lo)[i])
                >= score_of(ws, at, #[trigger] ranked(sc, hi, lo)[j]),
    decreases hi - lo + 1,
{
    if hi >= lo {
        lemma_ranked_sorted(ws, at, sc, hi, lo + 1);
        lemma_level_scores(ws, at, sc, lo);
        let a = ranked(sc, hi, lo + 1);
        let b = rows_scoring(sc, lo);
        let r = ranked(sc, hi, lo);
        assert(r == a + b);
        assert forall|i: int| 0 <= i < r.len() implies (row_score(ws, haystack(#[trigger] r[i], at))
            matches Some(s) && lo <= s <= hi) by {
            if i < a.len() {
                assert(r[i] == a[i]);
            } else {
                assert(r[i] == b[i - a.len()]);
            }
        }
        assert forall|i: int, j: int| 0 <= i < j < r.len() implies score_of(ws, at, #[trigger] r[i])
            >= score_of(ws, at, #[trigger] r[j]) by {
            if j < a.len() {
                assert(r[i] == a[i]);
                assert(r[j] == a[j]);
            } else if i < a.len() {
                assert(r[i] == a[i]);
                assert(r[j] == b[j - a.len()]);
            } else {
                assert(r[i] == b[i - a.len()]);
                assert(r[j] == b[j - a.len()]);
            }
        }
    }
}

/// What a fuzzy search shows: exactly the rows in which every search word
/// occurs — as a substring or, failing that, as an in-order subsequence —
/// in the row's section, keys, action or the tab's aliases (each such row
/// as often as the tab has it, and no other row), best score first:
/// substring matches count 2, subsequence-only matches 1.
pub proof fn lemma_fuzzy_search(rows: Seq<RowView>, aliases: Seq<Seq<char>>, search: Seq<char>)
    ensures
        ({
            let ws = search_words(search);
            let at = alias_text(aliases);
            let res = fuzzy_result(rows, aliases, search);
            &&& res.to_multiset() == matching(ws, at, rows).to_multiset()
            &&& forall|i: int| 0 <= i < res.len() ==> all_words_match(ws, haystack(#[trigger] res[i], at))
            &&& forall|i: int, j: int|
                0 <= i < j < res.len() ==> score_of(ws, at, #[trigger] res[i]) >= score_of(
                    ws,
                    at,
                    #[trigger] res[j],
                )
        }),
{
    let ws = search_words(search);
    let at = alias_text(aliases);
    let n = ws.len() as int;
    let sc = scored_rows(ws, at, rows);
    lemma_scored_rows(ws, at, rows);
    assert forall|i: int| 0 <= i < sc.len() implies n <= #[trigger] sc[i].0 <= 2 * n by {
        lemma_row_score(ws, haystack(sc[i].1, at));
    }
    lemma_within_all(sc, n, 2 * n);
    lemma_ranked_multiset(sc, 2 * n, n);
    lemma_ranked_sorted(ws, at, sc, 2 * n, n);
    let res = fuzzy_result(rows, aliases, search);
    assert forall|i: int| 0 <= i < res.len() implies all_words_match(
        ws,
        haystack(#[trigger] res[i], at),
    ) by {
        lemma_row_score(ws, haystack(res[i], at));
    }
}

/// A search with no words shows every row, in table order.
pub proof fn lemma_fuzzy_no_words(rows: Seq<RowView>, aliases: Seq<Seq<char>>, search: Seq<char>)
    requires
        search_words(search).len() == 0,
    ensures
        fuzzy_result(rows, aliases, search) == rows,
{
    reveal_with_fuel(Seq::filter, 1);
    let ws = search_words(search);
    let at = alias_text(aliases);
    let sc = scored_rows(ws, at, rows);
    lemma_scored_rows(ws, at, rows);
    assert forall|i: int| 0 <= i < sc.len() implies 0 <= #[trigger] sc[i].0 <= 0 by {
        lemma_row_score(ws, haystack(sc[i].1, at));
    }
    lemma_within_all(sc, 0, 0);
    lemma_all_match_no_words(ws, at, rows);
    lemma_level_is_within(sc, 0);
    lemma_within_empty(sc, 1, 0);
    assert(ranked(sc, 0, 1) == Seq::<RowView>::empty());
}

/// With no words every row matches.
proof fn lemma_all_match_no_words(ws: Seq<Seq<char>>, at: Seq<char>, rows: Seq<RowView>)
    requires
        ws.len() == 0,
    ensures
        matching(ws, at, rows) == rows,
    decreases rows.len(),
{
    reveal_with_fuel(Seq::filter, 1);
    if rows.len() > 0 {
        lemma_all_match_no_words(ws, at, rows.drop_last());
        assert(all_words_match(ws, haystack(rows.last(), at)));
        assert(rows.drop_last().push(rows.last()) == rows);
    }
}

/// One score level is the range from that score to itself.
proof fn lemma_level_is_within(sc: Seq<(int, RowView)>, k: int)
    ensures
        rows_scoring(sc, k) == scored_within(sc, k, k),
    decreases sc.len(),
{
    if sc.len() > 0 {
        lemma_level_is_within(sc.drop_last(), k);
    }
}

// ---------------------------------------------------------------------------
// Laws of the search helpers
// ---------------------------------------------------------------------------

/// `idx` places each character of `needle` on an equal character of `hay`,
/// at strictly increasing positions.
pub open spec fn embeds(needle: Seq<char>, hay: Seq<char>, idx: Seq<int>) -> bool {
    &&& idx.len() == needle.len()
    &&& forall|i: int| 0 <= i < idx.len() ==> 0 <= #[trigger] idx[i] < hay.len() && hay[idx[i]] == needle[i]
    &&& forall|i: int, j: int| 0 <= i < j < idx.len() ==> #[trigger] idx[i] < #[trigger] idx[j]
}

/// `is_subseq` is the fuzzy match it is documented as: every character of
/// the needle appears in the haystack in order, not necessarily next to
/// each other.
pub proof fn lemma_subseq_iff_embedding(needle: Seq<char>, hay: Seq<char>)
    ensures
        is_subseq(needle, hay) <==> exists|idx: Seq<int>| embeds(needle, hay, idx),
    decreases hay.len(),
{
    if needle.len() == 0 {
        assert(embeds(needle, hay, Seq::<int>::empty()));
    } else if hay.len() == 0 {
        if exists|idx: Seq<int>| embeds(needle, hay, idx) {
            let idx = choose|idx: Seq<int>| embeds(needle, hay, idx);
            assert(0 <= idx[0] < hay.len());
        }
    } else {
        let n1 = needle.drop_first();
        let h1 = hay.drop_first();
        if needle[0] == hay[0] {
            lemma_subseq_iff_embedding(n1, h1);
            if is_subseq(n1, h1) {
                let idx1 = choose|idx: Seq<int>| embeds(n1, h1, idx);
                let idx = seq![0int] + idx1.map_values(|x: int| x + 1);
                assert forall|i: int| 0 <= i < idx.len() implies 0 <= #[trigger] idx[i] < hay.len()
                    && hay[idx[i]] == needle[i] by {
                    if i > 0 {
                        assert(idx[i] == idx1[i - 1] + 1);
                        assert(hay[idx[i]] == h1[idx1[i - 1]]);
                    }
                }
                assert forall|i: int, j: int| 0 <= i < j < idx.len() implies #[trigger] idx[i]
                    < #[trigger] idx[j] by {
                    if i > 0 {
                        assert(idx1[i - 1] < idx1[j - 1]);
                    } else {
                        assert(idx1[j - 1] >= 0);
                    }
                }
                assert(embeds(needle, hay, idx));
            }
            if exists|idx: Seq<int>| embeds(needle, hay, idx) {
                let idx = choose|idx: Seq<int>| embeds(needle, hay, idx);
                let idx1 = idx.drop_first().map_values(|x: int| x - 1);
                assert forall|i: int| 0 <= i < idx1.len() implies 0 <= #[trigger] idx1[i] < h1.len()
                    && h1[idx1[i]] == n1[i] by {
                    assert(idx[0] < idx[i + 1]);
                }
                assert forall|i: int, j: int| 0 <= i < j < idx1.len() implies #[trigger] idx1[i]
                    < #[trigger] idx1[j] by {
                    assert(idx[i + 1] < idx[j + 1]);
                }
                assert(embeds(n1, h1, idx1));
            }
        } else {
            lemma_subseq_iff_embedding(needle, h1);
            if is_subseq(needle, h1) {
                let idx1 = choose|idx: Seq<int>| embeds(needle, h1, idx);
                let idx = idx1.map_values(|x: int| x + 1);
                assert forall|i: int| 0 <= i < idx.len() implies 0 <= #[trigger] idx[i] < hay.len()
                    && hay[idx[i]] == needle[i] by {
                    assert(hay[idx[i]] == h1[idx1[i]]);
                }
                assert forall|i: int, j: int| 0 <= i < j < idx.len() implies #[trigger] idx[i]
                    < #[trigger] idx[j] by {
                    assert(idx1[i] < idx1[j]);
                }
                assert(embeds(needle, hay, idx));
            }
            if exists|idx: Seq<int>| embeds(needle, hay, idx) {
                let idx = choose|idx: Seq<int>| embeds(needle, hay, idx);
                assert(idx[0] != 0);
                let idx1 = idx.map_values(|x: int| x - 1);
                assert forall|i: int| 0 <= i < idx1.len() implies 0 <= #[trigger] idx1[i] < h1.len()
                    && h1[idx1[i]] == needle[i] by {
                    if i > 0 {
                        assert(idx[0] < idx[i]);
                    }
                }
                assert forall|i: int, j: int| 0 <= i < j < idx1.len() implies #[trigger] idx1[i]
                    < #[trigger] idx1[j] by {
                    assert(idx[i] < idx[j]);
                }
                assert(embeds(needle, h1, idx1));
            }
        }
    }
}

/// A word found as a substring is also found as a subsequence, so the
/// substring score (2) is never given to a word that fuzzy matching (1)
/// would miss.
pub proof fn lemma_substring_is_subseq(w: Seq<char>, hay: Seq<char>)
    requires
        contains(hay, w),
    ensures
        is_subseq(w, hay),
{
    let i = choose|i: int| occurs_at(hay, w, i);
    let idx = Seq::new(w.len(), |k: int| i + k);
    assert forall|k: int| 0 <= k < idx.len() implies 0 <= #[trigger] idx[k] < hay.len() && hay[idx[k]]
        == w[k] by {
        assert(hay.subrange(i, i + w.len())[k] == hay[i + k]);
    }
    assert(embeds(w, hay, idx));
    lemma_subseq_iff_embedding(w, hay);
}

/// Which-key search narrows as more is typed: what a longer buffer keeps
/// is what the shorter one kept, narrowed further.
pub proof fn lemma_whichkey_narrows(rows: Seq<RowView>, shorter: Seq<char>, longer: Seq<char>)
    requires
        starts_with(strip_ws(longer), strip_ws(shorter)),
    ensures
        whichkey_rows(rows, longer) == whichkey_rows(rows, shorter).filter(
            |r: RowView| whichkey_match(r.1, longer),
        ),
    decreases rows.len(),
{
    reveal_with_fuel(Seq::filter, 1);
    if rows.len() > 0 {
        lemma_whichkey_narrows(rows.drop_last(), shorter, longer);
        let keys = rows.last().1;
        if whichkey_match(keys, longer) {
            let i = choose|i: int|
                0 <= i < alternatives(keys).len() && starts_with(
                    #[trigger] alternatives(keys)[i],
                    strip_ws(longer),
                );
            lemma_starts_with_trans(alternatives(keys)[i], strip_ws(longer), strip_ws(shorter));
            assert(whichkey_match(keys, shorter));
        }
        let a = whichkey_rows(rows.drop_last(), shorter);
        assert(rows.drop_last().push(rows.last()) == rows);
        if whichkey_match(keys, shorter) {
            assert(whichkey_rows(rows, shorter) == a.push(rows.last()));
            assert(a.push(rows.last()).drop_last() == a);
        } else {
            assert(whichkey_rows(rows, shorter) == a);
        }
    }
}

/// How `split_at_tab` takes a search apart: when it finds a token, the
/// search is `@`, the token (non-empty, without whitespace), a run of
/// whitespace, and the rest (which does not start with whitespace);
/// otherwise the search is handed back whole.
pub proof fn lemma_at_tab_parts(search: Seq<char>)
    ensures
        at_tab_split(search).0 is None ==> at_tab_split(search).1 == search,
        at_tab_split(search).0 matches Some(tok) ==> {
            let rest = at_tab_split(search).1;
            &&& tok.len() > 0
            &&& forall|i: int| 0 <= i < tok.len() ==> !is_ws(#[trigger] tok[i])
            &&& rest.len() > 0 ==> !is_ws(rest[0])
            &&& exists|gap: Seq<char>|
                (forall|i: int| 0 <= i < gap.len() ==> is_ws(#[trigger] gap[i])) && search
                    == seq!['@'] + tok + gap + rest
        },
{
    if search.len() > 0 && search[0] == '@' {
        let rest = search.drop_first();
        lemma_find_ws_props(rest);
        let end = match find_ws(rest) {
            Some(i) => i,
            None => rest.len() as int,
        };
        if end > 0 {
            let tok = rest.take(end);
            let after = rest.skip(end);
            lemma_leading_ws_props(after);
            let k = leading_ws(after) as int;
            let gap = after.take(k);
            let r = after.skip(k);
            assert forall|i: int| 0 <= i < tok.len() implies !is_ws(#[trigger] tok[i]) by {
                assert(tok[i] == rest[i]);
            }
            assert forall|i: int| 0 <= i < gap.len() implies is_ws(#[trigger] gap[i]) by {
                assert(gap[i] == after[i]);
            }
            if r.len() > 0 {
                assert(r[0] == after[k]);
            }
            assert(search =~= seq!['@'] + tok + gap + r);
        }
    }
}

/// One more word added to a score.
pub open spec fn add_word(r: Option<int>, w: Seq<char>, hay: Seq<char>) -> Option<int> {
    match r {
        Some(s) => if word_score(w, hay) > 0 {
            Some(s + word_score(w, hay))
        } else {
            None
        },
        None => None,
    }
}

/// A row's score counts any one word as if it came last.
proof fn lemma_row_score_remove(ws: Seq<Seq<char>>, hay: Seq<char>, j: int)
    requires
        0 <= j < ws.len(),
    ensures
        row_score(ws, hay) == add_word(row_score(ws.remove(j), hay), ws[j], hay),
    decreases ws.len(),
{
    if j < ws.len() - 1 {
        let t = ws.drop_last();
        lemma_row_score_remove(t, hay, j);
        assert(ws.remove(j) == t.remove(j).push(ws.last()));
        assert(ws.remove(j).drop_last() == t.remove(j));
        assert(t[j] == ws[j]);
    } else {
        assert(ws.remove(j) == ws.drop_last());
    }
}

/// The score of a row does not depend on the order of the words.
proof fn lemma_row_score_perm(ws1: Seq<Seq<char>>, ws2: Seq<Seq<char>>, hay: Seq<char>)
    requires
        ws1.to_multiset() == ws2.to_multiset(),
    ensures
        row_score(ws1, hay) == row_score(ws2, hay),
    decreases ws1.len(),
{
    broadcast use vstd::seq_lib::group_to_multiset_ensures;
    broadcast use vstd::multiset::group_multiset_axioms;

    if ws1.len() == 0 {
        assert(ws2.to_multiset().len() == 0);
        assert(ws2.len() == 0);
    } else {
        let x = ws1.last();
        let t1 = ws1.drop_last();
        assert(ws1 == t1.push(x));
        assert(ws1.to_multiset().count(x) > 0);
        assert(ws2.contains(x));
        let j = choose|j: int| 0 <= j < ws2.len() && ws2[j] == x;
        let t2 = ws2.remove(j);
        assert(t1.to_multiset() =~= ws1.to_multiset().remove(x));
        assert(t2.to_multiset() =~= ws2.to_multiset().remove(x));
        lemma_row_score_perm(t1, t2, hay);
        lemma_row_score_remove(ws2, hay, j);
    }
}

/// Scoring the rows does not depend on the order of the words.
proof fn lemma_scored_rows_perm(
    ws1: Seq<Seq<char>>,
    ws2: Seq<Seq<char>>,
    at: Seq<char>,
    rows: Seq<RowView>,
)
    requires
        ws1.to_multiset() == ws2.to_multiset(),
    ensures
        scored_rows(ws1, at, rows) == scored_rows(ws2, at, rows),
    decreases rows.len(),
{
    if rows.len() > 0 {
        lemma_scored_rows_perm(ws1, ws2, at, rows.drop_last());
        lemma_row_score_perm(ws1, ws2, haystack(rows.last(), at));
    }
}

/// The order of the search words does not matter: two searches with the
/// same words (counted with repeats) show the same rows in the same order.
pub proof fn lemma_fuzzy_word_order(
    rows: Seq<RowView>,
    aliases: Seq<Seq<char>>,
    s1: Seq<char>,
    s2: Seq<char>,
)
    requires
        search_words(s1).to_multiset() == search_words(s2).to_multiset(),
    ensures
        fuzzy_result(rows, aliases, s1) == fuzzy_result(rows, aliases, s2),
{
    broadcast use vstd::seq_lib::group_to_multiset_ensures;

    lemma_scored_rows_perm(search_words(s1), search_words(s2), alias_text(aliases), rows);
    assert(search_words(s1).len() == search_words(s1).to_multiset().len());
    assert(search_words(s2).len() == search_words(s2).to_multiset().len());
}

/// More words only narrow a fuzzy search: when every word of the search
/// `s1` is also a word of the search `s2`, every row that `s2` shows is a
/// row that `s1` shows too.
pub proof fn lemma_more_words_narrow(
    rows: Seq<RowView>,
    aliases: Seq<Seq<char>>,
    s1: Seq<char>,
    s2: Seq<char>,
)
    requires
        forall|i: int|
            0 <= i < search_words(s1).len() ==> search_words(s2).contains(
                #[trigger] search_words(s1)[i],
            ),
    ensures
        forall|r: RowView|
            #[trigger] fuzzy_result(rows, aliases, s2).contains(r) ==> fuzzy_result(
                rows,
                aliases,
                s1,
            ).contains(r),
{
    broadcast use vstd::seq_lib::to_multiset_contains;

    let ws1 = search_words(s1);
    let ws2 = search_words(s2);
    let at = alias_text(aliases);
    let res1 = fuzzy_result(rows, aliases, s1);
    let res2 = fuzzy_result(rows, aliases, s2);
    lemma_fuzzy_search(rows, aliases, s1);
    lemma_fuzzy_search(rows, aliases, s2);
    let p1 = |r: RowView| all_words_match(ws1, haystack(r, at));
    let p2 = |r: RowView| all_words_match(ws2, haystack(r, at));
    assert forall|r: RowView| #[trigger] res2.contains(r) implies res1.contains(r) by {
        let k = choose|k: int| 0 <= k < res2.len() && res2[k] == r;
        let hay = haystack(r, at);
        assert(all_words_match(ws2, haystack(res2[k], at)));
        assert forall|i: int| 0 <= i < ws1.len() implies word_score(#[trigger] ws1[i], hay) > 0 by {
            assert(ws2.contains(ws1[i]));
            let j = choose|j: int| 0 <= j < ws2.len() && ws2[j] == ws1[i];
            assert(word_score(ws2[j], hay) > 0);
        }
        assert(res2.to_multiset().count(r) > 0);
        assert(matching(ws2, at, rows).contains(r));
        rows.lemma_filter_contains_rev(p2, r);
        let q = choose|q: int| 0 <= q < rows.len() && rows[q] == r;
        rows.lemma_filter_contains(p1, q);
        assert(matching(ws1, at, rows).contains(r));
        assert(matching(ws1, at, rows).to_multiset().count(r) > 0);
        assert(res1.to_multiset().count(r) > 0);
    }
}

/// A word found in a piece of a text is found in the text.
proof fn lemma_contains_in_part(hay: Seq<char>, part: Seq<char>, start: int, w: Seq<char>)
    requires
        0 <= start,
        start + part.len() <= hay.len(),
        hay.subrange(start, start + part.len()) == part,
        contains(part, w),
    ensures
        contains(hay, w),
{
    let j = choose|j: int| occurs_at(part, w, j);
    assert(hay.subrange(start + j, start + j + w.len()) =~= part.subrange(j, j + w.len()));
    assert(occurs_at(hay, w, start + j));
}

/// A row is found by every fuzzy search whose words (of the lowercased
/// search, split at whitespace) each occur, as they are, in the row's
/// lowercased section, keys or action, or in the tab's aliases joined by
/// spaces and lowercased.
pub proof fn lemma_found_by_substrings(
    rows: Seq<RowView>,
    aliases: Seq<Seq<char>>,
    search: Seq<char>,
    i: int,
)
    requires
        0 <= i < rows.len(),
        forall|k: int|
            0 <= k < words(lowercase(search)).len() ==> ({
                let w = #[trigger] words(lowercase(search))[k];
                ||| contains(lowercase(rows[i].0), w)
                ||| contains(lowercase(rows[i].1), w)
                ||| contains(lowercase(rows[i].2), w)
                ||| contains(lowercase(join(aliases, seq![' '])), w)
            }),
    ensures
        fuzzy_result(rows, aliases, search).contains(rows[i]),
{
    broadcast use vstd::seq_lib::to_multiset_contains;

    let ws = search_words(search);
    let at = alias_text(aliases);
    let r = rows[i];
    let l0 = lowercase(r.0);
    let l1 = lowercase(r.1);
    let l2 = lowercase(r.2);
    let hay = haystack(r, at);
    let s1: int = l0.len() as int + 1;
    let s2: int = s1 + l1.len() + 1;
    let s3: int = s2 + l2.len() + 1;
    assert(hay.subrange(0, l0.len() as int) =~= l0);
    assert(hay.subrange(s1, s1 + l1.len()) =~= l1);
    assert(hay.subrange(s2, s2 + l2.len()) =~= l2);
    assert(hay.subrange(s3, s3 + at.len()) =~= at);
    assert forall|k: int| 0 <= k < ws.len() implies word_score(#[trigger] ws[k], hay) > 0 by {
        let w = words(lowercase(search))[k];
        if contains(l0, w) {
            lemma_contains_in_part(hay, l0, 0, w);
        } else if contains(l1, w) {
            lemma_contains_in_part(hay, l1, s1, w);
        } else if contains(l2, w) {
            lemma_contains_in_part(hay, l2, s2, w);
        } else {
            lemma_contains_in_part(hay, at, s3, w);
        }
    }
    let p = |x: RowView| all_words_match(ws, haystack(x, at));
    rows.lemma_filter_contains(p, i);
    assert(matching(ws, at, rows).contains(r));
    assert(matching(ws, at, rows).to_multiset().count(r) > 0);
    lemma_fuzzy_search(rows, aliases, search);
    assert(fuzzy_result(rows, aliases, search).to_multiset().count(r) > 0);
}

/// Which-key search keeps a row exactly when one of the `/`-separated
/// pieces of its keys, with whitespace removed, starts with the typed
/// buffer, with whitespace removed.
pub proof fn lemma_whichkey_pieces(rows: Seq<RowView>, buffer: Seq<char>, i: int)
    requires
        0 <= i < rows.len(),
    ensures
        whichkey_rows(rows, buffer).contains(rows[i]) <==> exists|j: int|
            0 <= j < split(rows[i].1, '/').len() && starts_with(
                strip_ws(#[trigger] split(rows[i].1, '/')[j]),
                strip_ws(buffer),
            ),
{
    let keys = rows[i].1;
    let pieces = split(keys, '/');
    let p = |r: RowView| whichkey_match(r.1, buffer);
    assert(alternatives(keys).len() == pieces.len());
    assert forall|j: int| 0 <= j < pieces.len() implies #[trigger] alternatives(keys)[j] == strip_ws(
        pieces[j],
    ) by {}
    if exists|j: int|
        0 <= j < pieces.len() && starts_with(strip_ws(#[trigger] pieces[j]), strip_ws(buffer)) {
        let j = choose|j: int|
            0 <= j < pieces.len() && starts_with(strip_ws(#[trigger] pieces[j]), strip_ws(buffer));
        assert(starts_with(alternatives(keys)[j], strip_ws(buffer)));
        rows.lemma_filter_contains(p, i);
    }
    if whichkey_rows(rows, buffer).contains(rows[i]) {
        let f = rows.filter(p);
        let q = choose|q: int| 0 <= q < f.len() && f[q] == rows[i];
        rows.lemma_filter_pred(p, q);
        assert(whichkey_match(keys, buffer));
        let j = choose|j: int|
            0 <= j < alternatives(keys).len() && starts_with(
                #[trigger] alternatives(keys)[j],
                strip_ws(buffer),
            );
        assert(starts_with(strip_ws(pieces[j]), strip_ws(buffer)));
    }
}

/// The `@tab` selector is recognised exactly when the search starts with
/// `@` and then a non-whitespace character. The token is then the whole run
/// of non-whitespace characters after the `@` (however short), and the
/// filter text is what follows it, without its leading whitespace.
pub proof fn lemma_at_tab_token(search: Seq<char>)
    ensures
        (at_tab_split(search).0 is Some) <==> (search.len() >= 2 && search[0] == '@' && !is_ws(
            search[1],
        )),
        at_tab_split(search).0 matches Some(tok) ==> {
            let end: int = 1 + tok.len() as int;
            &&& end <= search.len()
            &&& tok == search.subrange(1, end)
            &&& forall|k: int| 0 <= k < tok.len() ==> !is_ws(#[trigger] tok[k])
            &&& (end == search.len() || is_ws(search[end]))
            &&& at_tab_split(search).1 == trim_start(search.skip(end))
        },
{
    if search.len() > 0 && search[0] == '@' {
        let rest = search.drop_first();
        lemma_find_ws_props(rest);
        if search.len() >= 2 {
            assert(rest[0] == search[1]);
        }
        match at_tab_split(search).0 {
            Some(tok) => {
                let end: int = 1 + tok.len() as int;
                assert(tok =~= search.subrange(1, end));
                assert forall|k: int| 0 <= k < tok.len() implies !is_ws(#[trigger] tok[k]) by {
                    assert(tok[k] == rest[k]);
                }
                if end < search.len() {
                    assert(search[end] == rest[end - 1]);
                }
                assert(rest.skip(tok.len() as int) =~= search.skip(end));
            },
            None => {},
        }
    }
}

impl Tab {
    /// The sections, as views.
    pub open spec fn sections_view(&self) -> Seq<(Seq<char>, Seq<(Seq<char>, Seq<char>)>)> {
        self.sections@.map_values(|s: Section| s@)
    }

    /// The rows of the tab, section after section.
    pub open spec fn rows(&self) -> Seq<RowView> {
        flat_rows(self.sections_view())
    }

    /// The aliases, as views.
    pub open spec fn alias_views(&self) -> Seq<Seq<char>> {
        str_views(self.aliases@)
    }

    /// Builds a `Tab` from a static `RawSections` table — the common shape
    /// shared by every source with no live config to parse.
    pub fn from_raw(
        app: &str,
        window_class: &'static [&'static str],
        aliases: &'static [&'static str],
        raw: RawSections,
    ) -> (t: Tab)
        ensures
            t.app@ == app@,
            t.window_class == window_class,
            t.aliases == aliases,
            t.sections_view() == raw@.map_values(
                |s: (&str, &[(&str, &str)])| raw_section_view(s),
            ),
    {
        let mut sections: Vec<Section> = Vec::new();
        let mut i: usize = 0;
        while i < raw.len()
            invariant
                i <= raw@.len(),
                sections@.map_values(|s: Section| s@) == raw@.take(i as int).map_values(
                    |s: (&str, &[(&str, &str)])| raw_section_view(s),
                ),
            decreases raw.len() - i,
        {
            let (name, rb) = raw[i];
            let mut binds: Vec<Bind> = Vec::new();
            let mut j: usize = 0;
            while j < rb.len()
                invariant
                    j <= rb@.len(),
                    binds@.map_values(|b: Bind| b@) == rb@.take(j as int).map_values(
                        |b: (&str, &str)| raw_bind_view(b),
                    ),
                decreases rb.len() - j,
            {
                let (k, a) = rb[j];
                let ghost before = binds@;
                binds.push(Bind { keys: owned(k), action: owned(a) });
                assert(binds@.map_values(|b: Bind| b@) == before.map_values(|b: Bind| b@).push(
                    raw_bind_view(rb@[j as int]),
                ));
                assert(rb@.take(j as int + 1) == rb@.take(j as int).push(rb@[j as int]));
                j += 1;
            }
            assert(rb@.take(j as int) == rb@);
            let ghost before = sections@;
            sections.push(Section { name: owned(name), binds });
            assert(sections@.map_values(|s: Section| s@) == before.map_values(|s: Section| s@).push(
                raw_section_view(raw@[i as int]),
            ));
            assert(raw@.take(i as int + 1) == raw@.take(i as int).push(raw@[i as int]));
            i += 1;
        }
        assert(raw@.take(i as int) == raw@);
        Tab { app: owned(app), window_class, aliases, sections }
    }

    /// All rows of the tab, section after section, each with its section's
    /// name.
    pub fn flat(&self) -> (r: Vec<(&str, &Bind)>)
        ensures
            rows_view(r@) == self.rows(),
    {
        let mut r: Vec<(&str, &Bind)> = Vec::new();
        let mut i: usize = 0;
        while i < self.sections.len()
            invariant
                i <= self.sections@.len(),
                rows_view(r@) == flat_rows(self.sections_view().take(i as int)),
            decreases self.sections.len() - i,
        {
            let s = &self.sections[i];
            let ghost start = rows_view(r@);
            let mut j: usize = 0;
            while j < s.binds.len()
                invariant
                    j <= s.binds@.len(),
                    *s == self.sections@[i as int],
                    rows_view(r@) == start + section_rows(s@).take(j as int),
                decreases s.binds.len() - j,
            {
                let ghost before = r@;
                r.push((s.name.as_str(), &s.binds[j]));
                assert(rows_view(r@) == rows_view(before).push(section_rows(s@)[j as int]));
                assert(section_rows(s@).take(j as int + 1) == section_rows(s@).take(j as int).push(
                    section_rows(s@)[j as int],
                ));
                j += 1;
            }
            assert(section_rows(s@).take(j as int) == section_rows(s@));
            assert(self.sections_view().take(i as int + 1).drop_last() == self.sections_view().take(
                i as int,
            ));
            i += 1;
        }
        assert(self.sections_view().take(i as int) == self.sections_view());
        r
    }

    /// Every whitespace-separated word in `search` must appear — as a
    /// substring or, failing that, as an in-order subsequence (fuzzy, like
    /// fzf) — somewhere in the row (section, keys, action, or the tab's
    /// aliases). Results are ranked substring-matches-first.
    pub fn filtered(&self, search: &str) -> (r: Vec<(&str, &Bind)>)
        ensures
            rows_view(r@) == fuzzy_result(self.rows(), self.alias_views(), search@),
    {
        let lowered = to_lower(search);
        let word_strings = words_str(lowered.as_str());
        let mut ws: Vec<Vec<char>> = Vec::new();
        let mut j: usize = 0;
        while j < word_strings.len()
            invariant
                j <= word_strings@.len(),
                char_views(ws@) == views(word_strings@).take(j as int),
            decreases word_strings.len() - j,
        {
            let ghost before = ws@;
            ws.push(chars_of(word_strings[j].as_str()));
            assert(char_views(ws@) == char_views(before).push(word_strings@[j as int]@));
            assert(views(word_strings@).take(j as int + 1) == views(word_strings@).take(
                j as int,
            ).push(word_strings@[j as int]@));
            j += 1;
        }
        assert(views(word_strings@).take(j as int) == views(word_strings@));
        let ghost wsv = search_words(search@);
        assert(char_views(ws@) == wsv);
        let alias_lower = to_lower(join_aliases(self.aliases).as_str());
        let ghost at = alias_text(self.alias_views());
        assert(alias_lower@ == at);

        let rows = self.flat();
        let ghost rv = rows_view(rows@);
        let mut matched: Vec<(&str, &Bind)> = Vec::new();
        let mut hits: Vec<usize> = Vec::new();
        let n = ws.len();
        let mut t: usize = 0;
        while t < rows.len()
            invariant
                t <= rows@.len(),
                rv == rows_view(rows@),
                n == ws@.len(),
                char_views(ws@) == wsv,
                alias_lower@ == at,
                matched@.len() == hits@.len(),
                matched@.len() == scored_rows(wsv, at, rv.take(t as int)).len(),
                forall|q: int| 0 <= q < hits@.len() ==> #[trigger] hits@[q] <= n,
                forall|q: int|
                    0 <= q < matched@.len() ==> #[trigger] scored_rows(wsv, at, rv.take(t as int))[q]
                        == ((n + hits@[q]) as int, row_view(matched@[q])),
            decreases rows.len() - t,
        {
            let (section, bind) = rows[t];
            let hay = row_haystack(section, bind, alias_lower.as_str());
            assert(rv.take(t as int + 1).drop_last() == rv.take(t as int));
            assert(rv.take(t as int + 1).last() == row_view(rows@[t as int]));
            let ghost prev = scored_rows(wsv, at, rv.take(t as int));
            match match_hits(&ws, &hay) {
                Some(h) => {
                    matched.push((section, bind));
                    hits.push(h);
                    assert forall|q: int| 0 <= q < matched@.len() implies #[trigger] scored_rows(
                        wsv,
                        at,
                        rv.take(t as int + 1),
                    )[q] == ((n + hits@[q]) as int, row_view(matched@[q])) by {
                        if q < matched@.len() - 1 {
                            assert(scored_rows(wsv, at, rv.take(t as int + 1))[q] == prev[q]);
                        }
                    }
                },
                None => {
                    assert(scored_rows(wsv, at, rv.take(t as int + 1)) == prev);
                },
            }
            t += 1;
        }
        let ghost sc = scored_rows(wsv, at, rv.take(t as int));
        assert(rv.take(t as int) == rv);

        let mut out: Vec<(&str, &Bind)> = Vec::new();
        let mut lvl: usize = n;
        assert(ranked(sc, 2 * n, n + lvl + 1) == Seq::<RowView>::empty());
        loop
            invariant_except_break
                lvl <= n,
                n == ws@.len(),
                matched@.len() == hits@.len() == sc.len(),
                forall|q: int| 0 <= q < hits@.len() ==> #[trigger] hits@[q] <= n,
                forall|q: int|
                    0 <= q < matched@.len() ==> #[trigger] sc[q] == (
                        (n + hits@[q]) as int,
                        row_view(matched@[q]),
                    ),
                rows_view(out@) == ranked(sc, 2 * n, n + lvl + 1),
            ensures
                rows_view(out@) == ranked(sc, 2 * n, n as int),
            decreases lvl,
        {
            let ghost start = rows_view(out@);
            let mut q: usize = 0;
            while q < matched.len()
                invariant
                    q <= matched@.len(),
                    lvl <= n,
                    matched@.len() == hits@.len() == sc.len(),
                    forall|p: int| 0 <= p < hits@.len() ==> #[trigger] hits@[p] <= n,
                    forall|p: int|
                        0 <= p < matched@.len() ==> #[trigger] sc[p] == (
                            (n + hits@[p]) as int,
                            row_view(matched@[p]),
                        ),
                    rows_view(out@) == start + rows_scoring(sc.take(q as int), n + lvl),
                decreases matched.len() - q,
            {
                assert(sc.take(q as int + 1).drop_last() == sc.take(q as int));
                assert(sc.take(q as int + 1).last() == sc[q as int]);
                assert(sc[q as int] == ((n + hits@[q as int]) as int, row_view(matched@[q as int])));
                if hits[q] == lvl {
                    let ghost before = out@;
                    out.push(matched[q]);
                    assert(rows_view(out@) == rows_view(before).push(row_view(matched@[q as int])));
                }
                q += 1;
            }
            assert(sc.take(q as int) == sc);
            proof {
                lemma_ranked_step(sc, 2 * n, n + lvl);
            }
            if lvl == 0 {
                break;
            }
            lvl -= 1;
        }
        out
    }
    /// Which-key narrowing: keeps rows where some "/"-separated alternative
    /// of `keys` starts with `buffer` once whitespace is stripped from both
    /// (so "g g" matches typing "gg", "SUPER + Q" matches "SUPER+Q").
    pub fn whichkey_filtered(&self, buffer: &str) -> (r: Vec<(&str, &Bind)>)
        ensures
            rows_view(r@) == whichkey_rows(self.rows(), buffer@),
    {
        let b = chars_of(strip_whitespace(buffer).as_str());
        let rows = self.flat();
        if b.len() == 0 {
            proof {
                lemma_whichkey_empty_keeps_all(self.rows(), buffer@);
            }
            return rows;
        }
        let ghost rv = rows_view(rows@);
        let mut out: Vec<(&str, &Bind)> = Vec::new();
        let mut t: usize = 0;
        while t < rows.len()
            invariant
                t <= rows@.len(),
                rv == rows_view(rows@),
                b@ == strip_ws(buffer@),
                rows_view(out@) == whichkey_rows(rv.take(t as int), buffer@),
            decreases rows.len() - t,
        {
            let (section, bind) = rows[t];
            assert(rv.take(t as int + 1).drop_last() == rv.take(t as int));
            assert(rv.take(t as int + 1).last() == row_view(rows@[t as int]));
            reveal_with_fuel(Seq::filter, 1);
            if whichkey_hit(bind.keys.as_str(), &b) {
                let ghost before = out@;
                out.push((section, bind));
                assert(rows_view(out@) == rows_view(before).push(row_view((section, bind))));
            }
            t += 1;
        }
        assert(rv.take(t as int) == rv);
        out
    }

    /// The rows that the search `search` shows in the given mode.
    pub fn filtered_by(&self, mode: SearchMode, search: &str) -> (r: Vec<(&str, &Bind)>)
        ensures
            rows_view(r@) == match mode {
                SearchMode::Fuzzy => fuzzy_result(self.rows(), self.alias_views(), search@),
                SearchMode::WhichKey => whichkey_rows(self.rows(), search@),
            },
    {
        match mode {
            SearchMode::Fuzzy => self.filtered(search),
            SearchMode::WhichKey => self.whichkey_filtered(search),
        }
    }
}

} // verus!
