//! A finite map from text to values.
use crate::text::str_eq;
use vstd::prelude::*;

verus! {

/// A map keyed by text. Of two entries under one key the first counts; the order of entries under
/// different keys carries no meaning.
#[derive(Debug)]
pub struct TextMap<V> {
    pub entries: Vec<(String, V)>,
}

/// Whether entry `i` is the first under `key`.
pub open spec fn key_at<V>(entries: Seq<(String, V)>, key: Seq<char>, i: int) -> bool {
    &&& 0 <= i < entries.len()
    &&& entries[i].0@ == key
    &&& forall|j: int| 0 <= j < i ==> (#[trigger] entries[j]).0@ != key
}

/// Whether some entry is under `key`.
pub open spec fn has_key<V>(entries: Seq<(String, V)>, key: Seq<char>) -> bool {
    exists|i: int| #[trigger] key_at(entries, key, i)
}

/// The position of the first entry under `key`.
pub open spec fn key_index<V>(entries: Seq<(String, V)>, key: Seq<char>) -> int {
    choose|i: int| #[trigger] key_at(entries, key, i)
}

/// The map that a list of entries stands for.
pub open spec fn entry_map<V>(entries: Seq<(String, V)>) -> Map<Seq<char>, V> {
    Map::new(
        |key: Seq<char>| has_key(entries, key),
        |key: Seq<char>| entries[key_index(entries, key)].1,
    )
}

impl<V> View for TextMap<V> {
    type V = Map<Seq<char>, V>;

    open spec fn view(&self) -> Map<Seq<char>, V> {
        entry_map(self.entries@)
    }
}

/// Where the first entry under `key` stands.
pub proof fn lemma_key_index<V>(entries: Seq<(String, V)>, key: Seq<char>, i: int)
    requires
        key_at(entries, key, i),
    ensures
        has_key(entries, key),
        key_index(entries, key) == i,
        entry_map(entries).contains_key(key),
        entry_map(entries)[key] == entries[i].1,
{
    let j = key_index(entries, key);
    assert(key_at(entries, key, j));
    if i < j {
        assert(entries[i].0@ != key);
    } else if j < i {
        assert(entries[j].0@ != key);
    }
}

/// An entry makes its key present.
pub proof fn lemma_entry_has_key<V>(entries: Seq<(String, V)>, i: int)
    requires
        0 <= i < entries.len(),
    ensures
        has_key(entries, entries[i].0@),
    decreases i,
{
    let key = entries[i].0@;
    if !key_at(entries, key, i) {
        let j = choose|j: int| 0 <= j < i && (#[trigger] entries[j]).0@ == key;
        lemma_entry_has_key(entries, j);
    }
}

/// Adding an entry under a fresh key.
pub proof fn lemma_push_entry<V>(entries: Seq<(String, V)>, key: String, value: V)
    requires
        !has_key(entries, key@),
    ensures
        entry_map(entries.push((key, value))) == entry_map(entries).insert(key@, value),
{
    let longer = entries.push((key, value));
    assert forall|j: int| 0 <= j < entries.len() implies (#[trigger] entries[j]).0@ != key@ by {
        if entries[j].0@ == key@ {
            lemma_entry_has_key(entries, j);
        }
    }
    assert(key_at(longer, key@, entries.len() as int));
    lemma_key_index(longer, key@, entries.len() as int);
    assert forall|k: Seq<char>| k != key@ implies has_key(longer, k) == has_key(entries, k) && (
    has_key(entries, k) ==> entry_map(longer)[k] == entry_map(entries)[k]) by {
        if has_key(longer, k) {
            let i = key_index(longer, k);
            assert(key_at(longer, k, i));
            assert forall|j: int| 0 <= j < i implies (#[trigger] entries[j]).0@ != k by {
                assert(longer[j] == entries[j]);
            }
            assert(key_at(entries, k, i));
        }
        if has_key(entries, k) {
            let i = key_index(entries, k);
            assert(key_at(entries, k, i));
            assert forall|j: int| 0 <= j < i implies (#[trigger] longer[j]).0@ != k by {
                assert(longer[j] == entries[j]);
            }
            assert(key_at(longer, k, i));
            lemma_key_index(longer, k, i);
            lemma_key_index(entries, k, i);
        }
    }
    assert(entry_map(longer) =~= entry_map(entries).insert(key@, value));
}

/// Replacing the first entry under a key.
proof fn lemma_set_entry<V>(entries: Seq<(String, V)>, i: int, key: String, value: V)
    requires
        key_at(entries, key@, i),
    ensures
        entry_map(entries.update(i, (key, value))) == entry_map(entries).insert(key@, value),
{
    let changed = entries.update(i, (key, value));
    assert forall|k: Seq<char>, j: int| key_at(changed, k, j) == key_at(entries, k, j) by {
        assert forall|a: int| 0 <= a < entries.len() implies (#[trigger] changed[a]).0@
            == entries[a].0@ by {}
        if key_at(changed, k, j) {
            assert forall|a: int| 0 <= a < j implies (#[trigger] entries[a]).0@ != k by {
                assert(changed[a].0@ == entries[a].0@);
            }
        }
    }
    assert forall|k: Seq<char>| has_key(changed, k) == has_key(entries, k) by {
        if has_key(changed, k) {
            assert(key_at(entries, k, key_index(changed, k)));
        }
        if has_key(entries, k) {
            assert(key_at(changed, k, key_index(entries, k)));
        }
    }
    lemma_key_index(entries, key@, i);
    assert forall|k: Seq<char>| has_key(changed, k) implies entry_map(changed)[k] == entry_map(
        entries,
    ).insert(key@, value)[k] by {
        let j = key_index(entries, k);
        assert(key_at(entries, k, j));
        assert(key_at(changed, k, j));
        lemma_key_index(changed, k, j);
        lemma_key_index(entries, k, j);
    }
    assert(entry_map(changed) =~= entry_map(entries).insert(key@, value));
}

/// Taking an entry out leaves what is under other keys.
proof fn lemma_remove_entry<V>(entries: Seq<(String, V)>, i: int)
    requires
        0 <= i < entries.len(),
    ensures
        entry_map(entries.remove(i)).remove(entries[i].0@) == entry_map(entries).remove(
            entries[i].0@,
        ),
{
    let rest = entries.remove(i);
    let gone = entries[i].0@;
    assert forall|k: Seq<char>| k != gone implies has_key(rest, k) == has_key(entries, k) && (
    has_key(entries, k) ==> entry_map(rest)[k] == entry_map(entries)[k]) by {
        if has_key(entries, k) {
            let j = key_index(entries, k);
            assert(key_at(entries, k, j));
            let j1 = if j < i { j } else { j - 1 };
            assert forall|a: int| 0 <= a < j1 implies (#[trigger] rest[a]).0@ != k by {
                assert(rest[a] == entries[if a < i { a } else { a + 1 }]);
            }
            assert(key_at(rest, k, j1));
            lemma_key_index(rest, k, j1);
            lemma_key_index(entries, k, j);
        }
        if has_key(rest, k) {
            let j1 = key_index(rest, k);
            assert(key_at(rest, k, j1));
            assert(entries[if j1 < i { j1 } else { j1 + 1 }].0@ == k);
            lemma_entry_has_key(entries, if j1 < i { j1 } else { j1 + 1 });
        }
    }
    assert(entry_map(rest).remove(gone) =~= entry_map(entries).remove(gone));
}

/// Adding an entry under a key that is there already.
pub proof fn lemma_push_shadowed<V>(entries: Seq<(String, V)>, key: String, value: V)
    requires
        has_key(entries, key@),
    ensures
        entry_map(entries.push((key, value))) == entry_map(entries),
{
    let longer = entries.push((key, value));
    assert forall|k: Seq<char>, i: int| #[trigger] key_at(entries, k, i) implies key_at(
        longer,
        k,
        i,
    ) by {
        assert forall|j: int| 0 <= j < i implies (#[trigger] longer[j]).0@ != k by {
            assert(longer[j] == entries[j]);
        }
    }
    let first = key_index(entries, key@);
    assert(key_at(entries, key@, first));
    assert forall|k: Seq<char>, i: int| #[trigger] key_at(longer, k, i) implies key_at(
        entries,
        k,
        i,
    ) by {
        if i == entries.len() {
            assert(longer[first].0@ == key@);
        } else {
            assert(longer[i] == entries[i]);
            assert forall|j: int| 0 <= j < i implies (#[trigger] entries[j]).0@ != k by {
                assert(longer[j] == entries[j]);
            }
        }
    }
    assert forall|k: Seq<char>| has_key(longer, k) == has_key(entries, k) && (has_key(entries, k)
        ==> #[trigger] entry_map(longer)[k] == entry_map(entries)[k]) by {
        if has_key(entries, k) {
            let i = key_index(entries, k);
            assert(key_at(entries, k, i) && key_at(longer, k, i));
            lemma_key_index(entries, k, i);
            lemma_key_index(longer, k, i);
        }
        if has_key(longer, k) {
            let i = key_index(longer, k);
            assert(key_at(longer, k, i) && key_at(entries, k, i));
        }
    }
    assert(entry_map(longer) =~= entry_map(entries));
}

/// Entry lists that agree entry by entry stand for maps that agree key by key.
pub proof fn lemma_same_entries<V: View>(a: Seq<(String, V)>, b: Seq<(String, V)>)
    requires
        a.len() == b.len(),
        forall|j: int| 0 <= j < a.len() ==> (#[trigger] b[j]).0@ == a[j].0@ && b[j].1@ == a[j].1@,
    ensures
        forall|k: Seq<char>| #[trigger] entry_map(a).contains_key(k) == entry_map(b).contains_key(k),
        forall|k: Seq<char>|
            entry_map(a).contains_key(k) ==> (#[trigger] entry_map(a)[k])@ == entry_map(b)[k]@,
{
    assert forall|k: Seq<char>, j: int| key_at(a, k, j) == key_at(b, k, j) by {
        assert forall|i: int| 0 <= i < a.len() implies a[i].0@ == b[i].0@ by {
            assert(b[i].0@ == a[i].0@);
        }
        if key_at(a, k, j) {
            assert forall|i: int| 0 <= i < j implies (#[trigger] b[i]).0@ != k by {
                assert(a[i].0@ != k);
            }
        }
    }
    assert forall|k: Seq<char>| has_key(a, k) == has_key(b, k) && (has_key(a, k) ==> entry_map(
        a,
    )[k]@ == entry_map(b)[k]@) by {
        if has_key(a, k) {
            let i = key_index(a, k);
            assert(key_at(a, k, i) && key_at(b, k, i));
            lemma_key_index(a, k, i);
            lemma_key_index(b, k, i);
            assert(b[i].1@ == a[i].1@);
        }
        if has_key(b, k) {
            let i = key_index(b, k);
            assert(key_at(b, k, i) && key_at(a, k, i));
        }
    }
}

impl<V> TextMap<V> {
    /// The map without entries.
    pub fn new() -> (out: TextMap<V>)
        ensures
            out@ == Map::<Seq<char>, V>::empty(),
    {
        let out = TextMap { entries: Vec::new() };
        assert(out@ =~= Map::<Seq<char>, V>::empty());
        out
    }

    fn position(&self, key: &str) -> (out: Option<usize>)
        ensures
            match out {
                Some(i) => key_at(self.entries@, key@, i as int),
                None => !has_key(self.entries@, key@),
            },
    {
        let mut i: usize = 0;
        while i < self.entries.len()
            invariant
                i <= self.entries.len(),
                forall|j: int| 0 <= j < i ==> (#[trigger] self.entries@[j]).0@ != key@,
            decreases self.entries.len() - i,
        {
            if str_eq(self.entries[i].0.as_str(), key) {
                return Some(i);
            }
            i += 1;
        }
        None
    }

    /// The value under `key`.
    pub fn get(&self, key: &str) -> (out: Option<&V>)
        ensures
            out == (if self@.contains_key(key@) {
                Some(&self@[key@])
            } else {
                None
            }),
    {
        match self.position(key) {
            Some(i) => {
                proof {
                    lemma_key_index(self.entries@, key@, i as int);
                }
                Some(&self.entries[i].1)
            },
            None => None,
        }
    }

    /// Whether there is an entry under `key`.
    pub fn contains_key(&self, key: &str) -> (out: bool)
        ensures
            out == self@.contains_key(key@),
    {
        self.get(key).is_some()
    }

    /// Whether the map has no entry.
    pub fn is_empty(&self) -> (out: bool)
        ensures
            out == (self@ == Map::<Seq<char>, V>::empty()),
    {
        proof {
            if self.entries@.len() == 0 {
                assert(self@ =~= Map::<Seq<char>, V>::empty());
            } else {
                lemma_entry_has_key(self.entries@, 0);
                assert(self@.contains_key(self.entries@[0].0@));
            }
        }
        self.entries.len() == 0
    }

    /// Put `value` under `key`, in place of any value there.
    pub fn insert(&mut self, key: String, value: V)
        ensures
            final(self)@ == old(self)@.insert(key@, value),
    {
        match self.position(key.as_str()) {
            Some(i) => {
                proof {
                    lemma_set_entry(self.entries@, i as int, key, value);
                }
                self.entries.set(i, (key, value));
            },
            None => {
                proof {
                    lemma_push_entry(self.entries@, key, value);
                }
                self.entries.push((key, value));
            },
        }
    }

    /// Take the value under `key` out of the map.
    pub fn remove(&mut self, key: &str) -> (out: Option<V>)
        ensures
            final(self)@ == old(self)@.remove(key@),
            out == (if old(self)@.contains_key(key@) {
                Some(old(self)@[key@])
            } else {
                None
            }),
        decreases old(self).entries@.len(),
    {
        match self.position(key) {
            Some(i) => {
                proof {
                    lemma_key_index(self.entries@, key@, i as int);
                    lemma_remove_entry(self.entries@, i as int);
                }
                let (_, value) = self.entries.remove(i);
                let _ = self.remove(key);
                Some(value)
            },
            None => {
                assert(self@.remove(key@) =~= self@);
                None
            },
        }
    }
}

/// The position of the first entry under the key of entry `i`.
pub(crate) fn first_entry<V>(map: &TextMap<V>, i: usize) -> (out: usize)
    requires
        i < map.entries@.len(),
    ensures
        out < map.entries@.len(),
        key_at(map.entries@, map.entries@[i as int].0@, out as int),
        map@.contains_key(map.entries@[i as int].0@),
        map@[map.entries@[i as int].0@] == map.entries@[out as int].1,
{
    let mut j: usize = 0;
    while j < i
        invariant
            j <= i < map.entries@.len(),
            forall|k: int|
                0 <= k < j ==> (#[trigger] map.entries@[k]).0@ != map.entries@[i as int].0@,
        decreases i - j,
    {
        if str_eq(map.entries[j].0.as_str(), map.entries[i].0.as_str()) {
            proof {
                lemma_key_index(map.entries@, map.entries@[i as int].0@, j as int);
            }
            return j;
        }
        j += 1;
    }
    proof {
        lemma_key_index(map.entries@, map.entries@[i as int].0@, i as int);
    }
    i
}

} // verus!
