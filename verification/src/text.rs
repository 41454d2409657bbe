//! Character-level text helpers shared by the parsers and the search code.
//!
//! Every helper works on the `Seq<char>` view of a string and is specified
//! by a spec function of the same shape as the std operation it stands for
//! (`trim`, `split`, `split_whitespace`, `lines`, `contains`, ...).
use vstd::prelude::*;

verus! {

// ---------------------------------------------------------------------------
// Whitespace
// ---------------------------------------------------------------------------

/// The Unicode `White_Space` property, which is what `char::is_whitespace`
/// tests: U+0009..=U+000D, U+0020, U+0085, U+00A0, U+1680, U+2000..=U+200A,
/// U+2028, U+2029, U+202F, U+205F and U+3000.
pub open spec fn is_ws(c: char) -> bool {
    let n = c as u32;
    ||| 0x09 <= n <= 0x0d
    ||| n == 0x20
    ||| n == 0x85
    ||| n == 0xa0
    ||| n == 0x1680
    ||| 0x2000 <= n <= 0x200a
    ||| n == 0x2028
    ||| n == 0x2029
    ||| n == 0x202f
    ||| n == 0x205f
    ||| n == 0x3000
}

/// Whether `c` is Unicode whitespace.
pub fn is_whitespace(c: char) -> (r: bool)
    ensures
        r == is_ws(c),
{
    let n: u32 = c as u32;
    (0x09 <= n && n <= 0x0d) || n == 0x20 || n == 0x85 || n == 0xa0 || n == 0x1680 || (0x2000
        <= n && n <= 0x200a) || n == 0x2028 || n == 0x2029 || n == 0x202f || n == 0x205f || n
        == 0x3000
}

/// Number of whitespace characters at the front of `s`.
pub open spec fn leading_ws(s: Seq<char>) -> nat
    decreases s.len(),
{
    if s.len() > 0 && is_ws(s[0]) {
        1 + leading_ws(s.drop_first())
    } else {
        0
    }
}

/// Number of whitespace characters at the back of `s`.
pub open spec fn trailing_ws(s: Seq<char>) -> nat
    decreases s.len(),
{
    if s.len() > 0 && is_ws(s.last()) {
        1 + trailing_ws(s.drop_last())
    } else {
        0
    }
}

/// `s` without its leading whitespace (`str::trim_start`).
pub open spec fn trim_start(s: Seq<char>) -> Seq<char> {
    s.skip(leading_ws(s) as int)
}

/// `s` without its trailing whitespace (`str::trim_end`).
pub open spec fn trim_end(s: Seq<char>) -> Seq<char> {
    s.take(s.len() - trailing_ws(s))
}

/// `s` without leading and trailing whitespace (`str::trim`).
pub open spec fn trim(s: Seq<char>) -> Seq<char> {
    trim_end(trim_start(s))
}

/// The characters of `s` that are not whitespace, in order.
pub open spec fn strip_ws(s: Seq<char>) -> Seq<char> {
    s.filter(|c: char| !is_ws(c))
}

// ---------------------------------------------------------------------------
// Searching
// ---------------------------------------------------------------------------

/// `needle` occurs in `hay` at position `i`.
pub open spec fn occurs_at(hay: Seq<char>, needle: Seq<char>, i: int) -> bool {
    0 <= i && i + needle.len() <= hay.len() && hay.subrange(i, i + needle.len()) == needle
}

/// `needle` is a substring of `hay` (`str::contains`).
pub open spec fn contains(hay: Seq<char>, needle: Seq<char>) -> bool {
    exists|i: int| occurs_at(hay, needle, i)
}

/// `p` is a prefix of `s` (`str::starts_with`).
pub open spec fn starts_with(s: Seq<char>, p: Seq<char>) -> bool {
    p.len() <= s.len() && s.take(p.len() as int) == p
}

/// Index of the first `c` in `s`, if any.
pub open spec fn find_char(s: Seq<char>, c: char) -> Option<int>
    decreases s.len(),
{
    if s.len() == 0 {
        None
    } else if s[0] == c {
        Some(0)
    } else {
        match find_char(s.drop_first(), c) {
            Some(i) => Some(i + 1),
            None => None,
        }
    }
}

/// Index of the first whitespace character in `s`, if any.
pub open spec fn find_ws(s: Seq<char>) -> Option<int>
    decreases s.len(),
{
    if s.len() == 0 {
        None
    } else if is_ws(s[0]) {
        Some(0)
    } else {
        match find_ws(s.drop_first()) {
            Some(i) => Some(i + 1),
            None => None,
        }
    }
}

// ---------------------------------------------------------------------------
// Splitting and joining
// ---------------------------------------------------------------------------

/// `s.split(sep)`: the pieces between occurrences of `sep`, read left to
/// right; there is always at least one piece.
pub open spec fn split(s: Seq<char>, sep: char) -> Seq<Seq<char>>
    decreases s.len(),
{
    if s.len() == 0 {
        seq![Seq::empty()]
    } else {
        let parts = split(s.drop_last(), sep);
        if s.last() == sep {
            parts.push(Seq::empty())
        } else {
            parts.update(parts.len() - 1, parts.last().push(s.last()))
        }
    }
}

/// `s.split_whitespace()`: the maximal runs of non-whitespace characters.
pub open spec fn words(s: Seq<char>) -> Seq<Seq<char>>
    decreases s.len(),
{
    if s.len() == 0 {
        Seq::empty()
    } else {
        let ws = words(s.drop_last());
        let c = s.last();
        if is_ws(c) {
            ws
        } else if s.len() == 1 || is_ws(s.drop_last().last()) {
            ws.push(seq![c])
        } else {
            ws.update(ws.len() - 1, ws.last().push(c))
        }
    }
}

/// A line without its `'\r'`, if it ends with one.
pub open spec fn strip_cr(s: Seq<char>) -> Seq<char> {
    if s.len() > 0 && s.last() == '\r' {
        s.drop_last()
    } else {
        s
    }
}

/// `s.lines()`: split at `'\n'`; a line ended by `"\r\n"` loses its `'\r'`,
/// and a final empty piece (text ending in a newline, or empty text) is not
/// a line.
pub open spec fn lines(s: Seq<char>) -> Seq<Seq<char>> {
    let parts = split(s, '\n');
    let ended = parts.drop_last().map_values(|p: Seq<char>| strip_cr(p));
    if parts.last().len() == 0 {
        ended
    } else {
        ended.push(parts.last())
    }
}

/// `parts.join(sep)`.
pub open spec fn join(parts: Seq<Seq<char>>, sep: Seq<char>) -> Seq<char>
    decreases parts.len(),
{
    if parts.len() == 0 {
        Seq::empty()
    } else if parts.len() == 1 {
        parts[0]
    } else {
        join(parts.drop_last(), sep) + sep + parts.last()
    }
}

/// `s.replace(from, to)` for a single character `from`.
pub open spec fn replace_char(s: Seq<char>, from: char, to: Seq<char>) -> Seq<char>
    decreases s.len(),
{
    if s.len() == 0 {
        Seq::empty()
    } else if s.last() == from {
        replace_char(s.drop_last(), from, to) + to
    } else {
        replace_char(s.drop_last(), from, to).push(s.last())
    }
}

/// `s.replace(from, to)` for a non-empty pattern `from`: occurrences are
/// replaced from left to right, without overlap.
pub open spec fn replace(s: Seq<char>, from: Seq<char>, to: Seq<char>) -> Seq<char>
    recommends
        from.len() > 0,
    decreases s.len(),
{
    if s.len() == 0 || from.len() == 0 {
        s
    } else if starts_with(s, from) {
        to + replace(s.skip(from.len() as int), from, to)
    } else {
        seq![s[0]] + replace(s.drop_first(), from, to)
    }
}

// ---------------------------------------------------------------------------
// Case mapping (std's Unicode tables)
// ---------------------------------------------------------------------------

/// What `str::to_lowercase` returns for a string with these characters.
pub uninterp spec fn lowercase(s: Seq<char>) -> Seq<char>;

/// `str::to_lowercase`: the Unicode lowercase mapping of `s`. The contract
/// names the result, which depends on `s` alone; the mapping tables are not
/// restated here.
#[verifier::external_body]
pub(crate) fn to_lower(s: &str) -> (r: String)
    ensures
        r@ == lowercase(s@),
{
    s.to_lowercase()
}

// ---------------------------------------------------------------------------
// Building strings
// ---------------------------------------------------------------------------

/// `String::push`: appends `c`.
#[verifier::external_body]
pub(crate) fn push_char(s: &mut String, c: char)
    ensures
        final(s)@ == old(s)@.push(c),
{
    s.push(c)
}

/// The characters of `s`, in order.
pub fn chars_of(s: &str) -> (v: Vec<char>)
    ensures
        v@ == s@,
{
    let mut v: Vec<char> = Vec::new();
    for c in it: s.chars()
        invariant
            v@ == it.seq().take(it.index() as int),
            it.seq() == s@,
    {
        v.push(c);
    }
    v
}

/// The string made of the characters `v[lo..hi]`.
pub fn string_of(v: &Vec<char>, lo: usize, hi: usize) -> (s: String)
    requires
        lo <= hi <= v.len(),
    ensures
        s@ == v@.subrange(lo as int, hi as int),
{
    let mut s = String::new();
    let mut i: usize = lo;
    while i < hi
        invariant
            lo <= i <= hi <= v.len(),
            s@ == v@.subrange(lo as int, i as int),
        decreases hi - i,
    {
        push_char(&mut s, v[i]);
        i += 1;
        assert(v@.subrange(lo as int, i as int) == v@.subrange(lo as int, i - 1).push(v@[i - 1]));
    }
    s
}

/// An owned copy of `s`.
pub fn owned(s: &str) -> (r: String)
    ensures
        r@ == s@,
{
    s.to_string()
}

/// `a` followed by `b`.
pub fn concat(a: &str, b: &str) -> (r: String)
    ensures
        r@ == a@ + b@,
{
    let mut r = a.to_string();
    r.append(b);
    r
}


// ---------------------------------------------------------------------------
// Lemmas on the spec functions
// ---------------------------------------------------------------------------

/// `leading_ws` is the length of the whitespace run that starts `s`.
pub proof fn lemma_leading_ws(s: Seq<char>, k: int)
    requires
        0 <= k <= s.len(),
        forall|j: int| 0 <= j < k ==> is_ws(#[trigger] s[j]),
        k == s.len() || !is_ws(s[k]),
    ensures
        leading_ws(s) == k,
    decreases k,
{
    if k > 0 {
        assert(is_ws(s[0]));
        let t = s.drop_first();
        assert forall|j: int| 0 <= j < k - 1 implies is_ws(#[trigger] t[j]) by {
            assert(t[j] == s[j + 1]);
        }
        if k - 1 < t.len() {
            assert(t[k - 1] == s[k]);
        }
        lemma_leading_ws(t, k - 1);
    }
}

/// `trailing_ws` is the length of the whitespace run that ends `s`.
pub proof fn lemma_trailing_ws(s: Seq<char>, k: int)
    requires
        0 <= k <= s.len(),
        forall|j: int| s.len() - k <= j < s.len() ==> is_ws(#[trigger] s[j]),
        k == s.len() || !is_ws(s[s.len() - k - 1]),
    ensures
        trailing_ws(s) == k,
    decreases k,
{
    if k > 0 {
        assert(is_ws(s[s.len() - 1]));
        let t = s.drop_last();
        assert forall|j: int| t.len() - (k - 1) <= j < t.len() implies is_ws(#[trigger] t[j]) by {
            assert(t[j] == s[j]);
        }
        if k - 1 < t.len() {
            assert(t[t.len() - (k - 1) - 1] == s[s.len() - k - 1]);
        }
        lemma_trailing_ws(t, k - 1);
    }
}

/// `find_ws` gives the first whitespace position.
pub proof fn lemma_find_ws(s: Seq<char>, k: int)
    requires
        0 <= k <= s.len(),
        forall|j: int| 0 <= j < k ==> !is_ws(#[trigger] s[j]),
    ensures
        k < s.len() && is_ws(s[k]) ==> find_ws(s) == Some(k),
        k == s.len() ==> find_ws(s) is None,
    decreases k,
{
    if k > 0 {
        let t = s.drop_first();
        assert forall|j: int| 0 <= j < k - 1 implies !is_ws(#[trigger] t[j]) by {
            assert(t[j] == s[j + 1]);
        }
        if k < s.len() {
            assert(t[k - 1] == s[k]);
        }
        lemma_find_ws(t, k - 1);
    }
}

/// `find_char` gives the first position of `c`.
pub proof fn lemma_find_char(s: Seq<char>, c: char, k: int)
    requires
        0 <= k <= s.len(),
        forall|j: int| 0 <= j < k ==> #[trigger] s[j] != c,
    ensures
        k < s.len() && s[k] == c ==> find_char(s, c) == Some(k),
        k == s.len() ==> find_char(s, c) is None,
    decreases k,
{
    if k > 0 {
        let t = s.drop_first();
        assert forall|j: int| 0 <= j < k - 1 implies #[trigger] t[j] != c by {
            assert(t[j] == s[j + 1]);
        }
        if k < s.len() {
            assert(t[k - 1] == s[k]);
        }
        lemma_find_char(t, c, k - 1);
    }
}

// ---------------------------------------------------------------------------
// Executable counterparts
// ---------------------------------------------------------------------------

/// Length of the whitespace run that starts `v[lo..hi]`.
pub fn ws_prefix_len(v: &Vec<char>, lo: usize, hi: usize) -> (k: usize)
    requires
        lo <= hi <= v.len(),
    ensures
        k == leading_ws(v@.subrange(lo as int, hi as int)),
        lo + k <= hi,
{
    let ghost s = v@.subrange(lo as int, hi as int);
    let mut i: usize = lo;
    while i < hi && is_whitespace(v[i])
        invariant
            lo <= i <= hi <= v.len(),
            s == v@.subrange(lo as int, hi as int),
            forall|j: int| 0 <= j < i - lo ==> is_ws(#[trigger] s[j]),
        decreases hi - i,
    {
        i += 1;
    }
    proof {
        lemma_leading_ws(s, (i - lo) as int);
    }
    i - lo
}

/// Length of the whitespace run that ends `v[lo..hi]`.
pub fn ws_suffix_len(v: &Vec<char>, lo: usize, hi: usize) -> (k: usize)
    requires
        lo <= hi <= v.len(),
    ensures
        k == trailing_ws(v@.subrange(lo as int, hi as int)),
        lo + k <= hi,
{
    let ghost s = v@.subrange(lo as int, hi as int);
    let mut i: usize = hi;
    while i > lo && is_whitespace(v[i - 1])
        invariant
            lo <= i <= hi <= v.len(),
            s == v@.subrange(lo as int, hi as int),
            forall|j: int| i - lo <= j < s.len() ==> is_ws(#[trigger] s[j]),
        decreases i - lo,
    {
        i -= 1;
    }
    proof {
        lemma_trailing_ws(s, (hi - i) as int);
    }
    hi - i
}

/// Bounds `(a, b)` with `v[a..b]` the trimmed `v[lo..hi]`.
pub fn trim_bounds(v: &Vec<char>, lo: usize, hi: usize) -> (r: (usize, usize))
    requires
        lo <= hi <= v.len(),
    ensures
        lo <= r.0 <= r.1 <= hi,
        v@.subrange(r.0 as int, r.1 as int) == trim(v@.subrange(lo as int, hi as int)),
{
    let a = lo + ws_prefix_len(v, lo, hi);
    let b = hi - ws_suffix_len(v, a, hi);
    proof {
        let s = v@.subrange(lo as int, hi as int);
        assert(trim_start(s) == v@.subrange(a as int, hi as int));
    }
    (a, b)
}

/// `s.trim()`.
pub fn trim_str(s: &str) -> (r: &str)
    ensures
        r@ == trim(s@),
{
    let v = chars_of(s);
    let (a, b) = trim_bounds(&v, 0, v.len());
    assert(v@.subrange(0, v@.len() as int) == s@);
    s.substring_char(a, b)
}

/// First whitespace position in `v[lo..hi]`, relative to `lo`.
pub fn find_ws_in(v: &Vec<char>, lo: usize, hi: usize) -> (r: Option<usize>)
    requires
        lo <= hi <= v.len(),
    ensures
        match r {
            Some(k) => find_ws(v@.subrange(lo as int, hi as int)) == Some(k as int) && lo + k < hi,
            None => find_ws(v@.subrange(lo as int, hi as int)) is None,
        },
{
    let ghost s = v@.subrange(lo as int, hi as int);
    let mut i: usize = lo;
    while i < hi
        invariant
            lo <= i <= hi <= v.len(),
            s == v@.subrange(lo as int, hi as int),
            forall|j: int| 0 <= j < i - lo ==> !is_ws(#[trigger] s[j]),
        decreases hi - i,
    {
        if is_whitespace(v[i]) {
            proof {
                lemma_find_ws(s, (i - lo) as int);
            }
            return Some(i - lo);
        }
        i += 1;
    }
    proof {
        lemma_find_ws(s, (i - lo) as int);
    }
    None
}

/// First position of `c` in `v[lo..hi]`, relative to `lo`.
pub fn find_char_in(v: &Vec<char>, lo: usize, hi: usize, c: char) -> (r: Option<usize>)
    requires
        lo <= hi <= v.len(),
    ensures
        match r {
            Some(k) => find_char(v@.subrange(lo as int, hi as int), c) == Some(k as int) && lo + k
                < hi,
            None => find_char(v@.subrange(lo as int, hi as int), c) is None,
        },
{
    let ghost s = v@.subrange(lo as int, hi as int);
    let mut i: usize = lo;
    while i < hi
        invariant
            lo <= i <= hi <= v.len(),
            s == v@.subrange(lo as int, hi as int),
            forall|j: int| 0 <= j < i - lo ==> #[trigger] s[j] != c,
        decreases hi - i,
    {
        if v[i] == c {
            proof {
                lemma_find_char(s, c, (i - lo) as int);
            }
            return Some(i - lo);
        }
        i += 1;
    }
    proof {
        lemma_find_char(s, c, (i - lo) as int);
    }
    None
}


/// The views of a sequence of strings.
pub open spec fn views(v: Seq<String>) -> Seq<Seq<char>> {
    v.map_values(|x: String| x@)
}

/// The pieces of `v` that the ranges `rs` delimit.
pub open spec fn pieces(v: Seq<char>, rs: Seq<(usize, usize)>) -> Seq<Seq<char>> {
    rs.map_values(|r: (usize, usize)| v.subrange(r.0 as int, r.1 as int))
}

/// Every range of `rs` lies within `lo..hi`.
pub open spec fn ranges_within(rs: Seq<(usize, usize)>, lo: int, hi: int) -> bool {
    forall|j: int| 0 <= j < rs.len() ==> lo <= (#[trigger] rs[j]).0 <= rs[j].1 <= hi
}

/// The ranges of the pieces of `v[lo..hi]` split at `sep`.
pub fn split_ranges(v: &Vec<char>, lo: usize, hi: usize, sep: char) -> (rs: Vec<(usize, usize)>)
    requires
        lo <= hi <= v.len(),
    ensures
        pieces(v@, rs@) == split(v@.subrange(lo as int, hi as int), sep),
        ranges_within(rs@, lo as int, hi as int),
        rs@.len() >= 1,
{
    let mut rs: Vec<(usize, usize)> = Vec::new();
    let mut start: usize = lo;
    let mut i: usize = lo;
    assert(v@.subrange(lo as int, lo as int) == Seq::<char>::empty());
    while i < hi
        invariant
            lo <= start <= i <= hi <= v.len(),
            ranges_within(rs@, lo as int, i as int),
            pieces(v@, rs@).push(v@.subrange(start as int, i as int)) == split(
                v@.subrange(lo as int, i as int),
                sep,
            ),
        decreases hi - i,
    {
        let ghost t = v@.subrange(lo as int, i as int + 1);
        assert(t.drop_last() == v@.subrange(lo as int, i as int));
        assert(t.last() == v@[i as int]);
        if v[i] == sep {
            rs.push((start, i));
            start = i + 1;
            assert(v@.subrange(start as int, start as int) == Seq::<char>::empty());
            assert(pieces(v@, rs@) == pieces(v@, rs@.drop_last()).push(
                v@.subrange(rs@.last().0 as int, rs@.last().1 as int),
            ));
        } else {
            assert(v@.subrange(start as int, i as int + 1) == v@.subrange(start as int, i as int).push(
                v@[i as int],
            ));
        }
        i += 1;
    }
    rs.push((start, hi));
    rs
}


/// The ranges of the words of `v[lo..hi]`.
pub fn word_ranges(v: &Vec<char>, lo: usize, hi: usize) -> (rs: Vec<(usize, usize)>)
    requires
        lo <= hi <= v.len(),
    ensures
        pieces(v@, rs@) == words(v@.subrange(lo as int, hi as int)),
        ranges_within(rs@, lo as int, hi as int),
{
    let mut rs: Vec<(usize, usize)> = Vec::new();
    let mut start: usize = lo;
    let mut in_word = false;
    let mut i: usize = lo;
    while i < hi
        invariant
            lo <= start <= i <= hi <= v.len(),
            ranges_within(rs@, lo as int, i as int),
            in_word <==> (i > lo && !is_ws(v@[i - 1])),
            in_word ==> start < i,
            in_word ==> pieces(v@, rs@).push(v@.subrange(start as int, i as int)) == words(
                v@.subrange(lo as int, i as int),
            ),
            !in_word ==> pieces(v@, rs@) == words(v@.subrange(lo as int, i as int)),
        decreases hi - i,
    {
        let ghost t = v@.subrange(lo as int, i as int + 1);
        assert(t.drop_last() == v@.subrange(lo as int, i as int));
        assert(t.last() == v@[i as int]);
        if i > lo {
            assert(t.drop_last().last() == v@[i - 1]);
        }
        if is_whitespace(v[i]) {
            if in_word {
                rs.push((start, i));
                assert(pieces(v@, rs@) == pieces(v@, rs@.drop_last()).push(
                    v@.subrange(rs@.last().0 as int, rs@.last().1 as int),
                ));
            }
            in_word = false;
        } else {
            if in_word {
                assert(v@.subrange(start as int, i as int + 1) == v@.subrange(
                    start as int,
                    i as int,
                ).push(v@[i as int]));
            } else {
                start = i;
                in_word = true;
                assert(v@.subrange(start as int, i as int + 1) == seq![v@[i as int]]);
            }
        }
        i += 1;
    }
    if in_word {
        rs.push((start, hi));
        assert(pieces(v@, rs@) == pieces(v@, rs@.drop_last()).push(
            v@.subrange(rs@.last().0 as int, rs@.last().1 as int),
        ));
    }
    rs
}

/// The strings that the ranges `rs` delimit in `v`.
pub fn strings_of(v: &Vec<char>, rs: &Vec<(usize, usize)>) -> (r: Vec<String>)
    requires
        ranges_within(rs@, 0, v@.len() as int),
    ensures
        views(r@) == pieces(v@, rs@),
{
    let mut r: Vec<String> = Vec::new();
    let mut j: usize = 0;
    while j < rs.len()
        invariant
            j <= rs.len(),
            ranges_within(rs@, 0, v@.len() as int),
            views(r@) == pieces(v@, rs@.take(j as int)),
        decreases rs.len() - j,
    {
        let (a, b) = rs[j];
        assert(rs@[j as int] == (a, b));
        let ghost before = r@;
        r.push(string_of(v, a, b));
        assert(views(r@) == views(before).push(v@.subrange(a as int, b as int)));
        assert(rs@.take(j as int + 1) == rs@.take(j as int).push((a, b)));
        j += 1;
    }
    assert(rs@.take(j as int) == rs@);
    r
}

/// `s.split(sep)`, as owned strings.
pub fn split_str(s: &str, sep: char) -> (r: Vec<String>)
    ensures
        views(r@) == split(s@, sep),
{
    let v = chars_of(s);
    let rs = split_ranges(&v, 0, v.len(), sep);
    assert(v@.subrange(0, v@.len() as int) == s@);
    strings_of(&v, &rs)
}

/// `s.split_whitespace()`, as owned strings.
pub fn words_str(s: &str) -> (r: Vec<String>)
    ensures
        views(r@) == words(s@),
{
    let v = chars_of(s);
    let rs = word_ranges(&v, 0, v.len());
    assert(v@.subrange(0, v@.len() as int) == s@);
    strings_of(&v, &rs)
}

/// `s.lines()`, as owned strings.
pub fn lines_str(s: &str) -> (r: Vec<String>)
    ensures
        views(r@) == lines(s@),
{
    let v = chars_of(s);
    let rs = split_ranges(&v, 0, v.len(), '\n');
    assert(v@.subrange(0, v@.len() as int) == s@);
    let ghost parts = split(s@, '\n');
    let mut r: Vec<String> = Vec::new();
    let mut j: usize = 0;
    let n = rs.len();
    while j + 1 < n
        invariant
            n == rs@.len() >= 1,
            j + 1 <= n,
            ranges_within(rs@, 0, v@.len() as int),
            pieces(v@, rs@) == parts,
            views(r@) == parts.take(j as int).map_values(|p: Seq<char>| strip_cr(p)),
        decreases n - j,
    {
        let (a, mut b) = rs[j];
        assert(parts[j as int] == v@.subrange(a as int, b as int));
        if b > a && v[b - 1] == '\r' {
            b = b - 1;
            assert(v@.subrange(a as int, b as int) == v@.subrange(a as int, b + 1).drop_last());
        }
        let ghost before = r@;
        r.push(string_of(&v, a, b));
        assert(views(r@) == views(before).push(strip_cr(parts[j as int])));
        assert(parts.take(j as int + 1) == parts.take(j as int).push(parts[j as int]));
        j += 1;
    }
    assert(parts.take(j as int) == parts.drop_last());
    let (a, b) = rs[n - 1];
    assert(parts.last() == v@.subrange(a as int, b as int));
    if a < b {
        let ghost before = r@;
        r.push(string_of(&v, a, b));
        assert(views(r@) == views(before).push(parts.last()));
    }
    r
}

/// Whether `needle` occurs in `hay` at position `i`.
pub fn occurs_at_exec(hay: &Vec<char>, needle: &Vec<char>, i: usize) -> (r: bool)
    ensures
        r == occurs_at(hay@, needle@, i as int),
{
    if needle.len() > hay.len() || i > hay.len() - needle.len() {
        return false;
    }
    let mut k: usize = 0;
    while k < needle.len()
        invariant
            k <= needle.len(),
            i + needle.len() <= hay.len(),
            forall|j: int| 0 <= j < k ==> hay@[i + j] == needle@[j],
        decreases needle.len() - k,
    {
        if hay[i + k] != needle[k] {
            assert(hay@.subrange(i as int, i + needle.len())[k as int] != needle@[k as int]);
            return false;
        }
        k += 1;
    }
    assert(hay@.subrange(i as int, i + needle.len()) == needle@);
    true
}

/// Whether `needle` is a substring of `hay`.
pub fn contains_exec(hay: &Vec<char>, needle: &Vec<char>) -> (r: bool)
    ensures
        r == contains(hay@, needle@),
{
    if needle.len() > hay.len() {
        return false;
    }
    let last = hay.len() - needle.len();
    let mut i: usize = 0;
    while i < last
        invariant
            last == hay.len() - needle.len(),
            i <= last,
            forall|j: int| 0 <= j < i ==> !occurs_at(hay@, needle@, j),
        decreases last - i,
    {
        if occurs_at_exec(hay, needle, i) {
            return true;
        }
        i += 1;
    }
    occurs_at_exec(hay, needle, last)
}

/// Whether `s` starts with `p`.
pub fn starts_with_exec(s: &Vec<char>, p: &Vec<char>) -> (r: bool)
    ensures
        r == starts_with(s@, p@),
{
    let r = occurs_at_exec(s, p, 0);
    assert(s@.subrange(0, p@.len() as int) == s@.take(p@.len() as int));
    r
}

/// `parts.join(sep)`.
pub fn join_strs(parts: &Vec<String>, sep: &str) -> (r: String)
    ensures
        r@ == join(views(parts@), sep@),
{
    let mut r = String::new();
    let mut j: usize = 0;
    while j < parts.len()
        invariant
            j <= parts.len(),
            r@ == join(views(parts@).take(j as int), sep@),
        decreases parts.len() - j,
    {
        let ghost before = views(parts@).take(j as int);
        if j > 0 {
            r.append(sep);
        }
        r.append(parts[j].as_str());
        assert(views(parts@).take(j as int + 1).drop_last() == before);
        assert(views(parts@).take(j as int + 1).last() == parts@[j as int]@);
        j += 1;
    }
    assert(views(parts@).take(j as int) == views(parts@));
    r
}

/// `s.replace(from, to)` for a single character `from`.
pub fn replace_char_str(s: &str, from: char, to: &str) -> (r: String)
    ensures
        r@ == replace_char(s@, from, to@),
{
    let v = chars_of(s);
    let mut r = String::new();
    let mut i: usize = 0;
    while i < v.len()
        invariant
            i <= v.len(),
            r@ == replace_char(v@.take(i as int), from, to@),
        decreases v.len() - i,
    {
        assert(v@.take(i as int + 1).drop_last() == v@.take(i as int));
        if v[i] == from {
            r.append(to);
        } else {
            push_char(&mut r, v[i]);
        }
        i += 1;
    }
    assert(v@.take(i as int) == s@);
    r
}

/// `s.replace(from, to)` for a non-empty pattern `from`.
pub fn replace_str(s: &str, from: &str, to: &str) -> (r: String)
    requires
        from@.len() > 0,
    ensures
        r@ == replace(s@, from@, to@),
{
    let v = chars_of(s);
    let f = chars_of(from);
    let mut r = String::new();
    let mut i: usize = 0;
    assert(v@.skip(0) == v@);
    while i < v.len()
        invariant
            i <= v.len(),
            f@ == from@,
            f@.len() > 0,
            r@ + replace(v@.skip(i as int), f@, to@) == replace(v@, f@, to@),
        decreases v.len() - i,
    {
        let ghost rest = v@.skip(i as int);
        if f.len() <= v.len() - i && occurs_at_exec(&v, &f, i) {
            assert(rest.take(f@.len() as int) == v@.subrange(i as int, i + f@.len()));
            assert(rest.skip(f@.len() as int) == v@.skip(i + f@.len()));
            r.append(to);
            i += f.len();
        } else {
            assert(!starts_with(rest, f@)) by {
                if starts_with(rest, f@) {
                    assert(rest.take(f@.len() as int) == v@.subrange(i as int, i + f@.len()));
                }
            }
            assert(rest.drop_first() == v@.skip(i + 1));
            push_char(&mut r, v[i]);
            i += 1;
        }
    }
    assert(v@.skip(i as int).len() == 0);
    r
}


/// `s` with its whitespace characters removed.
pub fn strip_whitespace(s: &str) -> (r: String)
    ensures
        r@ == strip_ws(s@),
{
    let v = chars_of(s);
    let mut r = String::new();
    let mut i: usize = 0;
    while i < v.len()
        invariant
            i <= v.len(),
            r@ == strip_ws(v@.take(i as int)),
        decreases v.len() - i,
    {
        assert(v@.take(i as int + 1).drop_last() == v@.take(i as int));
        assert(v@.take(i as int + 1).last() == v@[i as int]);
        reveal_with_fuel(Seq::filter, 1);
        if !is_whitespace(v[i]) {
            push_char(&mut r, v[i]);
        }
        i += 1;
    }
    assert(v@.take(i as int) == s@);
    r
}

/// `split` always yields at least one piece.
pub proof fn lemma_split_nonempty(s: Seq<char>, sep: char)
    ensures
        split(s, sep).len() >= 1,
    decreases s.len(),
{
    if s.len() > 0 {
        lemma_split_nonempty(s.drop_last(), sep);
    }
}


/// Whether `a` and `b` hold the same characters.
pub fn eq_str(a: &str, b: &str) -> (r: bool)
    ensures
        r == (a@ == b@),
{
    let av = chars_of(a);
    let bv = chars_of(b);
    if av.len() != bv.len() {
        return false;
    }
    let r = starts_with_exec(&av, &bv);
    assert(av@.take(bv@.len() as int) == av@);
    r
}


/// `s.splitn(n, sep)`: like `split`, but the last of at most `n` pieces
/// keeps the rest of `s`, separators included.
pub open spec fn splitn(s: Seq<char>, n: nat, sep: char) -> Seq<Seq<char>>
    decreases n,
{
    if n == 0 {
        Seq::empty()
    } else if n == 1 {
        seq![s]
    } else {
        match find_char(s, sep) {
            None => seq![s],
            Some(i) => seq![s.take(i)] + splitn(s.skip(i + 1), (n - 1) as nat, sep),
        }
    }
}

/// `s.splitn(n, sep)` with every piece trimmed, as owned strings.
pub fn splitn_trimmed(s: &str, n: usize, sep: char) -> (r: Vec<String>)
    ensures
        views(r@) == splitn(s@, n as nat, sep).map_values(|p: Seq<char>| trim(p)),
{
    let v = chars_of(s);
    let len = v.len();
    let mut r: Vec<String> = Vec::new();
    let mut start: usize = 0;
    let mut left: usize = n;
    assert(v@.subrange(0, len as int) == s@);
    while left > 1
        invariant
            start <= len == v@.len(),
            left <= n,
            views(r@) + splitn(v@.subrange(start as int, len as int), left as nat, sep).map_values(
                |p: Seq<char>| trim(p),
            ) == splitn(s@, n as nat, sep).map_values(|p: Seq<char>| trim(p)),
        ensures
            start <= len,
            left <= 1 || find_char(v@.subrange(start as int, len as int), sep) is None,
            views(r@) + splitn(v@.subrange(start as int, len as int), left as nat, sep).map_values(
                |p: Seq<char>| trim(p),
            ) == splitn(s@, n as nat, sep).map_values(|p: Seq<char>| trim(p)),
        decreases left,
    {
        let ghost rest = v@.subrange(start as int, len as int);
        match find_char_in(&v, start, len, sep) {
            None => {
                break;
            },
            Some(k) => {
                assert(k < len - start);
                let (a, b) = trim_bounds(&v, start, start + k);
                assert(rest.take(k as int) == v@.subrange(start as int, start + k));
                assert(rest.skip(k + 1) == v@.subrange(start + k + 1, len as int));
                let ghost before = r@;
                r.push(string_of(&v, a, b));
                assert(views(r@) == views(before).push(trim(rest.take(k as int))));
                assert(splitn(rest, left as nat, sep).map_values(|p: Seq<char>| trim(p)) == seq![
                    trim(rest.take(k as int)),
                ] + splitn(rest.skip(k + 1), (left - 1) as nat, sep).map_values(
                    |p: Seq<char>| trim(p),
                ));
                start = start + k + 1;
                left -= 1;
            },
        }
    }
    let ghost rest = v@.subrange(start as int, len as int);
    if left >= 1 {
        let (a, b) = trim_bounds(&v, start, len);
        let ghost before = r@;
        r.push(string_of(&v, a, b));
        assert(views(r@) == views(before).push(trim(rest)));
        assert(splitn(rest, left as nat, sep).map_values(|p: Seq<char>| trim(p)) =~= seq![trim(rest)])
            by {
            if left > 1 {
                assert(find_char(rest, sep) is None);
            }
        }
    } else {
        assert(splitn(rest, 0, sep).map_values(|p: Seq<char>| trim(p)) =~= Seq::<Seq<char>>::empty());
    }
    r
}

// ---------------------------------------------------------------------------
// Decimal numbers (`str::parse` for integer types)
// ---------------------------------------------------------------------------

/// `s` is a non-empty run of ASCII digits.
pub open spec fn all_digits(s: Seq<char>) -> bool {
    s.len() > 0 && forall|i: int| 0 <= i < s.len() ==> '0' <= #[trigger] s[i] <= '9'
}

/// The value of a run of ASCII digits.
pub open spec fn digits_value(s: Seq<char>) -> int
    decreases s.len(),
{
    if s.len() == 0 {
        0
    } else {
        digits_value(s.drop_last()) * 10 + (s.last() as int - '0' as int)
    }
}

/// The integer that `str::parse` reads from `s`: an optional `+` (or, when
/// `signed`, `-`) and then one or more ASCII digits, nothing else; `None`
/// for anything else. The range of the target type is checked by the caller.
pub open spec fn decimal(s: Seq<char>, signed: bool) -> Option<int> {
    let neg = signed && s.len() > 0 && s[0] == '-';
    let ds = if s.len() > 0 && (s[0] == '+' || neg) {
        s.drop_first()
    } else {
        s
    };
    if !all_digits(ds) {
        None
    } else if neg {
        Some(-digits_value(ds))
    } else {
        Some(digits_value(ds))
    }
}

/// A longer run of digits is worth at least as much.
proof fn lemma_digits_monotone(s: Seq<char>, i: int, j: int)
    requires
        0 <= i <= j <= s.len(),
        forall|k: int| 0 <= k < s.len() ==> '0' <= #[trigger] s[k] <= '9',
    ensures
        digits_value(s.take(i)) <= digits_value(s.take(j)),
    decreases j - i,
{
    if i < j {
        lemma_digits_monotone(s, i, j - 1);
        assert(s.take(j).drop_last() == s.take(j - 1));
        assert(s.take(j).last() == s[j - 1]);
        assert(digits_value(s.take(j - 1)) >= 0) by {
            lemma_digits_nonneg(s.take(j - 1));
        }
    }
}

/// Digits are worth at least 0.
proof fn lemma_digits_nonneg(s: Seq<char>)
    requires
        forall|k: int| 0 <= k < s.len() ==> '0' <= #[trigger] s[k] <= '9',
    ensures
        digits_value(s) >= 0,
    decreases s.len(),
{
    if s.len() > 0 {
        let t = s.drop_last();
        assert forall|k: int| 0 <= k < t.len() implies '0' <= #[trigger] t[k] <= '9' by {
            assert(t[k] == s[k]);
        }
        lemma_digits_nonneg(t);
        assert(s.last() == s[s.len() - 1]);
    }
}

/// The sign and the digits that `decimal` reads from `s`.
pub open spec fn sign_and_digits(s: Seq<char>, signed: bool) -> (bool, Seq<char>) {
    let neg = signed && s.len() > 0 && s[0] == '-';
    (neg, if s.len() > 0 && (s[0] == '+' || neg) {
        s.drop_first()
    } else {
        s
    })
}

/// The sign and the value of the number in `v`, when its digits fit in a
/// `u64`.
fn read_decimal(v: &Vec<char>, signed: bool) -> (r: Option<(bool, u64)>)
    ensures
        match r {
            Some((neg, m)) => decimal(v@, signed) == Some(if neg {
                -(m as int)
            } else {
                m as int
            }),
            None => match decimal(v@, signed) {
                Some(x) => x > u64::MAX || x < -(u64::MAX as int),
                None => true,
            },
        },
{
    let n = v.len();
    let neg = signed && n > 0 && v[0] == '-';
    let start: usize = if n > 0 && (v[0] == '+' || neg) {
        1
    } else {
        0
    };
    let ghost ds = sign_and_digits(v@, signed).1;
    assert(ds == v@.subrange(start as int, n as int));
    if start == n {
        assert(ds.len() == 0);
        return None;
    }
    let mut acc: u64 = 0;
    let mut i: usize = start;
    assert(ds.take(0) == Seq::<char>::empty());
    while i < n
        invariant
            start <= i <= n == v@.len(),
            ds == v@.subrange(start as int, n as int),
            ds == sign_and_digits(v@, signed).1,
            neg == sign_and_digits(v@, signed).0,
            forall|k: int| 0 <= k < i - start ==> '0' <= #[trigger] ds[k] <= '9',
            acc == digits_value(ds.take(i - start)),
        decreases n - i,
    {
        let c = v[i];
        assert(ds[i - start] == c);
        if c < '0' || c > '9' {
            assert(!all_digits(ds));
            return None;
        }
        let d = (c as u32 - '0' as u32) as u64;
        assert(ds.take(i - start + 1).drop_last() == ds.take(i - start));
        assert(ds.take(i - start + 1).last() == c);
        match acc.checked_mul(10) {
            None => {
                proof {
                    lemma_too_long(ds, (i - start) as int, signed, v@);
                }
                return None;
            },
            Some(a10) => match a10.checked_add(d) {
                None => {
                    proof {
                        lemma_too_long(ds, (i - start + 1) as int, signed, v@);
                    }
                    return None;
                },
                Some(a) => {
                    acc = a;
                },
            },
        }
        i += 1;
    }
    assert(ds.take(n - start) == ds);
    Some((neg, acc))
}

/// Once a prefix of the digits is worth more than `u64::MAX` (or ten times
/// it is, with a digit to follow), so are all the digits — unless they are
/// not all digits.
proof fn lemma_too_long(ds: Seq<char>, i: int, signed: bool, s: Seq<char>)
    requires
        0 <= i <= ds.len(),
        forall|k: int| 0 <= k < i ==> '0' <= #[trigger] ds[k] <= '9',
        (i < ds.len() && '0' <= ds[i] <= '9' && digits_value(ds.take(i)) * 10 > u64::MAX)
            || digits_value(ds.take(i)) > u64::MAX,
        ds == sign_and_digits(s, signed).1,
    ensures
        match decimal(s, signed) {
            Some(x) => x > u64::MAX || x < -(u64::MAX as int),
            None => true,
        },
{
    if all_digits(ds) {
        lemma_digits_nonneg(ds.take(i));
        if i < ds.len() {
            lemma_digits_monotone(ds, i + 1, ds.len() as int);
            assert(ds.take(i + 1).drop_last() == ds.take(i));
            assert(ds.take(i + 1).last() == ds[i]);
        } else {
            lemma_digits_monotone(ds, i, ds.len() as int);
        }
        assert(ds.take(ds.len() as int) == ds);
        if i < ds.len() && digits_value(ds.take(i)) <= u64::MAX {
            lemma_digits_monotone(ds, i + 1, ds.len() as int);
        }
    }
}

/// `s.parse::<i64>()`, `None` on error.
pub fn parse_i64(s: &str) -> (r: Option<i64>)
    ensures
        match decimal(s@, true) {
            Some(x) => if i64::MIN <= x <= i64::MAX {
                r == Some(x as i64)
            } else {
                r is None
            },
            None => r is None,
        },
{
    let v = chars_of(s);
    match read_decimal(&v, true) {
        None => None,
        Some((neg, m)) => {
            if neg {
                if m <= 0x8000_0000_0000_0000u64 {
                    if m == 0x8000_0000_0000_0000u64 {
                        Some(i64::MIN)
                    } else {
                        Some(-(m as i64))
                    }
                } else {
                    None
                }
            } else if m <= i64::MAX as u64 {
                Some(m as i64)
            } else {
                None
            }
        },
    }
}

/// `s.parse::<u32>()`, `None` on error.
pub fn parse_u32(s: &str) -> (r: Option<u32>)
    ensures
        match decimal(s@, false) {
            Some(x) => if x <= u32::MAX {
                r == Some(x as u32)
            } else {
                r is None
            },
            None => r is None,
        },
        decimal(s@, false) matches Some(x) ==> x >= 0,
{
    let v = chars_of(s);
    proof {
        let ds = sign_and_digits(s@, false).1;
        if all_digits(ds) {
            lemma_digits_nonneg(ds);
        }
    }
    match read_decimal(&v, false) {
        None => None,
        Some((neg, m)) => {
            if m <= u32::MAX as u64 {
                Some(m as u32)
            } else {
                None
            }
        },
    }
}

/// What `find_ws` finds: no whitespace before it, whitespace at it.
pub proof fn lemma_find_ws_props(s: Seq<char>)
    ensures
        match find_ws(s) {
            Some(i) => 0 <= i < s.len() && is_ws(s[i]) && forall|j: int|
                0 <= j < i ==> !is_ws(#[trigger] s[j]),
            None => forall|j: int| 0 <= j < s.len() ==> !is_ws(#[trigger] s[j]),
        },
    decreases s.len(),
{
    if s.len() > 0 {
        let t = s.drop_first();
        lemma_find_ws_props(t);
        if !is_ws(s[0]) {
            match find_ws(t) {
                Some(i) => {
                    assert(s[i + 1] == t[i]);
                    assert forall|j: int| 0 <= j < i + 1 implies !is_ws(#[trigger] s[j]) by {
                        if j > 0 {
                            assert(s[j] == t[j - 1]);
                        }
                    }
                },
                None => {
                    assert forall|j: int| 0 <= j < s.len() implies !is_ws(#[trigger] s[j]) by {
                        if j > 0 {
                            assert(s[j] == t[j - 1]);
                        }
                    }
                },
            }
        }
    }
}

/// What `leading_ws` counts: whitespace up to it, and none right after.
pub proof fn lemma_leading_ws_props(s: Seq<char>)
    ensures
        leading_ws(s) <= s.len(),
        forall|j: int| 0 <= j < leading_ws(s) ==> is_ws(#[trigger] s[j]),
        leading_ws(s) < s.len() ==> !is_ws(s[leading_ws(s) as int]),
    decreases s.len(),
{
    if s.len() > 0 && is_ws(s[0]) {
        let t = s.drop_first();
        lemma_leading_ws_props(t);
        assert forall|j: int| 0 <= j < leading_ws(s) implies is_ws(#[trigger] s[j]) by {
            if j > 0 {
                assert(s[j] == t[j - 1]);
            }
        }
        if leading_ws(s) < s.len() {
            assert(s[leading_ws(s) as int] == t[leading_ws(t) as int]);
        }
    }
}

/// A prefix of a prefix is a prefix.
pub proof fn lemma_starts_with_trans(s: Seq<char>, p: Seq<char>, q: Seq<char>)
    requires
        starts_with(s, p),
        starts_with(p, q),
    ensures
        starts_with(s, q),
{
    assert(s.take(q.len() as int) =~= p.take(q.len() as int));
}

} // verus!
