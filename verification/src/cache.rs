//! The in-process cache of loaded documentation, keyed by `crate@version`.

use vstd::prelude::*;
use vstd::string::*;

verus! {

/// The cache key of `krate@version`.
pub open spec fn key_of(krate: Seq<char>, version: Seq<char>) -> Seq<char> {
    krate + "@"@ + version
}

/// The cache key `{krate}@{version}`.
pub fn cache_key(krate: &str, version: &str) -> (k: String)
    ensures
        k@ == key_of(krate@, version@),
{
    let mut k = String::from_str(krate);
    k.append("@");
    k.append(version);
    k
}

/// The map that a list of entries stands for: a later entry for a key
/// overrides an earlier one.
pub open spec fn entries_map<T>(es: Seq<(String, T)>) -> Map<Seq<char>, T>
    decreases es.len(),
{
    if es.len() == 0 {
        Map::empty()
    } else {
        entries_map(es.drop_last()).insert(es.last().0@, es.last().1)
    }
}

/// A cache from keys to values.
///
/// The entries are a list whose view is a map, rather than a
/// `HashMap<String, T>`: vstd specifies what a `HashMap` holds only for keys
/// that obey its key model, which it establishes for integer and `bool` keys
/// but not for `String`, so nothing about a lookup by `String` could be
/// proved. A lookup scans from the newest entry, so a later `insert` of a
/// key replaces the earlier one.
#[derive(Debug)]
pub struct DocCache<T> {
    entries: Vec<(String, T)>,
}

/// No key is listed twice.
pub open spec fn keys_distinct<T>(es: Seq<(String, T)>) -> bool {
    forall|i: int, j: int| 0 <= i < j < es.len() ==> es[i].0@ != es[j].0@
}

proof fn lemma_entries_update<T>(es: Seq<(String, T)>, i: int, e: (String, T))
    requires
        keys_distinct(es),
        0 <= i < es.len(),
        es[i].0@ == e.0@,
    ensures
        entries_map(es.update(i, e)) == entries_map(es).insert(e.0@, e.1),
    decreases es.len(),
{
    let u = es.update(i, e);
    if i == es.len() - 1 {
        assert(u.drop_last() =~= es.drop_last());
        assert(entries_map(u) =~= entries_map(es).insert(e.0@, e.1));
    } else {
        let d = es.drop_last();
        assert(u.drop_last() =~= d.update(i, e));
        assert(u.last() == es.last());
        assert(es.last().0@ != e.0@) by {
            assert(es[i].0@ != es[es.len() - 1].0@);
        }
        lemma_entries_update(d, i, e);
        assert(entries_map(u) =~= entries_map(es).insert(e.0@, e.1));
    }
}

impl<T> DocCache<T> {
    #[verifier::type_invariant]
    spec fn listed_once(self) -> bool {
        keys_distinct(self.entries@)
    }

    /// What the cache holds: key to value.
    pub closed spec fn view(&self) -> Map<Seq<char>, T> {
        entries_map(self.entries@)
    }

    /// An empty cache.
    pub fn new() -> (c: DocCache<T>)
        ensures
            c.view() == Map::<Seq<char>, T>::empty(),
    {
        DocCache { entries: Vec::new() }
    }

    /// The value stored under `key`, if any.
    pub fn get(&self, key: &str) -> (r: Option<&T>)
        ensures
            match r {
                Some(v) => self.view().contains_key(key@) && self.view()[key@] == *v,
                None => !self.view().contains_key(key@),
            },
    {
        let k = String::from_str(key);
        let mut i: usize = self.entries.len();
        proof {
            let es = self.entries@;
            assert(es.take(es.len() as int) == es);
            assert(es.skip(es.len() as int) =~= Seq::<(String, T)>::empty());
            assert(entries_map(es).union_prefer_right(Map::<Seq<char>, T>::empty()) =~= entries_map(es));
        }
        while i > 0
            invariant
                k@ == key@,
                i <= self.entries@.len(),
                forall|j: int| i <= j < self.entries@.len() ==> #[trigger] self.entries@[j].0@ != key@,
                self.view() == entries_map(self.entries@.take(i as int)).union_prefer_right(
                    entries_map(self.entries@.skip(i as int)),
                ),
                !entries_map(self.entries@.skip(i as int)).contains_key(key@),
            decreases i,
        {
            let ghost es = self.entries@;
            assert(es.take(i as int).drop_last() == es.take(i - 1));
            assert(es.take(i as int).last() == es[i - 1]);
            if self.entries[i - 1].0 == k {
                proof {
                    assert(entries_map(es.take(i as int)).contains_key(key@));
                    assert(entries_map(es.take(i as int))[key@] == es[i - 1].1);
                }
                return Some(&self.entries[i - 1].1);
            }
            proof { lemma_entries_skip(es, i as int); }
            i -= 1;
        }
        proof {
            assert(self.entries@.take(0) =~= Seq::<(String, T)>::empty());
            assert(self.view() =~= entries_map(self.entries@.skip(0)));
        }
        None
    }

    /// Stores `value` under `key`, replacing what was stored there.
    pub fn insert(&mut self, key: String, value: T)
        ensures
            final(self).view() == old(self).view().insert(key@, value),
    {
        proof { use_type_invariant(&*self); }
        let mut es: Vec<(String, T)> = Vec::new();
        std::mem::swap(&mut es, &mut self.entries);
        let mut i: usize = 0;
        while i < es.len()
            invariant
                i <= es@.len(),
                es@ == old(self).entries@,
                keys_distinct(es@),
                forall|j: int| 0 <= j < i ==> #[trigger] es@[j].0@ != key@,
            decreases es@.len() - i,
        {
            if es[i].0 == key {
                proof { lemma_entries_update(es@, i as int, (key, value)); }
                es.set(i, (key, value));
                self.entries = es;
                return;
            }
            i += 1;
        }
        es.push((key, value));
        assert(es@.drop_last() == old(self).entries@);
        self.entries = es;
    }
}

proof fn lemma_entries_skip<T>(es: Seq<(String, T)>, i: int)
    requires
        0 < i <= es.len(),
    ensures
        entries_map(es.take(i)).union_prefer_right(entries_map(es.skip(i)))
            == entries_map(es.take(i - 1)).union_prefer_right(entries_map(es.skip(i - 1))),
        entries_map(es.skip(i - 1)) == map![es[i - 1].0@ => es[i - 1].1].union_prefer_right(entries_map(es.skip(i))),
    decreases es.len() - i,
{
    lemma_entries_split(es.skip(i - 1));
    assert(es.skip(i - 1).skip(1) == es.skip(i));
    assert(es.skip(i - 1)[0] == es[i - 1]);
    assert(es.take(i).drop_last() == es.take(i - 1));
    assert(es.take(i).last() == es[i - 1]);
    assert(entries_map(es.take(i)).union_prefer_right(entries_map(es.skip(i)))
        =~= entries_map(es.take(i - 1)).union_prefer_right(entries_map(es.skip(i - 1))));
}

proof fn lemma_entries_split<T>(es: Seq<(String, T)>)
    requires
        es.len() > 0,
    ensures
        entries_map(es) == map![es[0].0@ => es[0].1].union_prefer_right(entries_map(es.skip(1))),
    decreases es.len(),
{
    if es.len() == 1 {
        assert(es.skip(1) =~= Seq::<(String, T)>::empty());
        assert(es.drop_last() =~= Seq::<(String, T)>::empty());
        assert(entries_map(es) =~= map![es[0].0@ => es[0].1].union_prefer_right(entries_map(es.skip(1))));
    } else {
        lemma_entries_split(es.drop_last());
        assert(es.drop_last().skip(1) == es.skip(1).drop_last());
        assert(es.skip(1).last() == es.last());
        assert(es.drop_last()[0] == es[0]);
        assert(entries_map(es) =~= map![es[0].0@ => es[0].1].union_prefer_right(entries_map(es.skip(1))));
    }
}

/// What the cache promises across calls: once `insert(key, value)` has
/// turned `before` into `after`, a lookup of `key` in `after` gives `value`,
/// and every other key keeps what it held in `before`.
pub proof fn lemma_cache_read_after_write<T>(before: DocCache<T>, after: DocCache<T>, key: Seq<char>, value: T)
    requires
        after.view() == before.view().insert(key, value),
    ensures
        after.view().contains_key(key),
        after.view()[key] == value,
        forall|other: Seq<char>| other != key ==> (#[trigger] after.view().contains_key(other)
            <==> before.view().contains_key(other)),
        forall|other: Seq<char>| other != key && before.view().contains_key(other)
            ==> #[trigger] after.view()[other] == before.view()[other],
{
}

} // verus!
