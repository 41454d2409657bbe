//! A small string-to-string map for parsed key overrides.
use vstd::prelude::*;

verus! {

/// The map that a list of `(key, value)` insertions builds: a later entry
/// for a key replaces an earlier one.
pub open spec fn map_of(entries: Seq<(Seq<char>, Seq<char>)>) -> Map<Seq<char>, Seq<char>>
    decreases entries.len(),
{
    if entries.len() == 0 {
        Map::empty()
    } else {
        map_of(entries.drop_last()).insert(entries.last().0, entries.last().1)
    }
}

/// Keys mapped to values, in the order they were inserted.
#[derive(Debug)]
pub struct KeyOverrides {
    entries: Vec<(String, String)>,
}

impl View for KeyOverrides {
    type V = Map<Seq<char>, Seq<char>>;

    closed spec fn view(&self) -> Map<Seq<char>, Seq<char>> {
        map_of(self.entries@.map_values(|e: (String, String)| (e.0@, e.1@)))
    }
}

/// The last entry for `k` gives its value; with no entry, `k` is absent.
proof fn lemma_map_of_lookup(e: Seq<(Seq<char>, Seq<char>)>, k: Seq<char>, i: int)
    requires
        -1 <= i < e.len(),
        forall|j: int| i < j < e.len() ==> #[trigger] e[j].0 != k,
        i >= 0 ==> e[i].0 == k,
    ensures
        i >= 0 ==> map_of(e).contains_key(k) && map_of(e)[k] == e[i].1,
        i < 0 ==> !map_of(e).contains_key(k),
    decreases e.len(),
{
    if e.len() > 0 && i < e.len() - 1 {
        let t = e.drop_last();
        assert forall|j: int| i < j < t.len() implies #[trigger] t[j].0 != k by {
            assert(t[j] == e[j]);
        }
        if i >= 0 {
            assert(t[i] == e[i]);
        }
        lemma_map_of_lookup(t, k, i);
        assert(e.last() == e[e.len() - 1]);
    }
}

impl KeyOverrides {
    /// An empty map.
    pub fn new() -> (m: KeyOverrides)
        ensures
            m@ == Map::<Seq<char>, Seq<char>>::empty(),
    {
        let m = KeyOverrides { entries: Vec::new() };
        assert(m.entries@.map_values(|e: (String, String)| (e.0@, e.1@)).len() == 0);
        m
    }

    /// Maps `key` to `value`, replacing any earlier value.
    pub fn insert(&mut self, key: String, value: String)
        ensures
            final(self)@ == old(self)@.insert(key@, value@),
    {
        let ghost before = self.entries@.map_values(|e: (String, String)| (e.0@, e.1@));
        self.entries.push((key, value));
        assert(self.entries@.map_values(|e: (String, String)| (e.0@, e.1@)).drop_last() == before);
    }

    /// The value of `key`, if it has one.
    pub fn get(&self, key: &str) -> (r: Option<&String>)
        ensures
            match r {
                Some(v) => self@.contains_key(key@) && self@[key@] == v@,
                None => !self@.contains_key(key@),
            },
    {
        let ghost ev = self.entries@.map_values(|e: (String, String)| (e.0@, e.1@));
        let k = key.to_string();
        let mut i: usize = self.entries.len();
        while i > 0
            invariant
                i <= self.entries@.len(),
                ev == self.entries@.map_values(|e: (String, String)| (e.0@, e.1@)),
                k@ == key@,
                forall|j: int| i <= j < ev.len() ==> #[trigger] ev[j].0 != key@,
            decreases i,
        {
            if self.entries[i - 1].0 == k {
                proof {
                    lemma_map_of_lookup(ev, key@, i - 1);
                }
                return Some(&self.entries[i - 1].1);
            }
            i -= 1;
        }
        proof {
            lemma_map_of_lookup(ev, key@, -1);
        }
        None
    }

    /// Whether no key has a value.
    pub fn is_empty(&self) -> (r: bool)
        ensures
            r == (self@ == Map::<Seq<char>, Seq<char>>::empty()),
    {
        let ghost ev = self.entries@.map_values(|e: (String, String)| (e.0@, e.1@));
        if self.entries.len() == 0 {
            assert(self@ =~= Map::<Seq<char>, Seq<char>>::empty());
            true
        } else {
            assert(self@.contains_key(ev.last().0));
            false
        }
    }
}

} // verus!
