//! A mapping from names to values that keeps the order in which the names
//! were first inserted.

use vstd::prelude::*;

verus! {

/// A name with its value, as character sequences.
pub type Pair = (Seq<char>, Seq<char>);

/// The least index at or after `from` whose entry has the name `key`.
pub open spec fn key_index_from(entries: Seq<Pair>, key: Seq<char>, from: int) -> Option<int>
    decreases entries.len() - from,
{
    if from < 0 || from >= entries.len() {
        None
    } else if entries[from].0 == key {
        Some(from)
    } else {
        key_index_from(entries, key, from + 1)
    }
}

/// The index of the first entry with the name `key`.
pub open spec fn key_index(entries: Seq<Pair>, key: Seq<char>) -> Option<int> {
    key_index_from(entries, key, 0)
}

/// The value that `entries` holds for `key`.
pub open spec fn lookup(entries: Seq<Pair>, key: Seq<char>) -> Option<Seq<char>> {
    match key_index(entries, key) {
        Some(i) => Some(entries[i].1),
        None => None,
    }
}

/// `entries` after `key` is given `value`: a name already there keeps its
/// place and takes the new value, a new name goes to the end.
pub open spec fn put(entries: Seq<Pair>, key: Seq<char>, value: Seq<char>) -> Seq<Pair> {
    match key_index(entries, key) {
        Some(i) => entries.update(i, (key, value)),
        None => entries.push((key, value)),
    }
}

/// `entries` after each pair of `pairs` was put in turn, the first of them
/// first.
pub open spec fn put_all(entries: Seq<Pair>, pairs: Seq<Pair>) -> Seq<Pair>
    decreases pairs.len(),
{
    if pairs.len() == 0 {
        entries
    } else {
        put_all(put(entries, pairs[0].0, pairs[0].1), pairs.drop_first())
    }
}

/// The value of the last pair of `pairs` that is named `key`.
pub open spec fn last_value(pairs: Seq<Pair>, key: Seq<char>) -> Option<Seq<char>>
    decreases pairs.len(),
{
    if pairs.len() == 0 {
        None
    } else if pairs.last().0 == key {
        Some(pairs.last().1)
    } else {
        last_value(pairs.drop_last(), key)
    }
}

/// Whether no name occurs twice.
pub open spec fn distinct_keys(entries: Seq<Pair>) -> bool {
    forall|i: int, j: int| 0 <= i < j < entries.len() ==> entries[i].0 != entries[j].0
}

/// The mapping that `entries` stands for.
pub open spec fn as_map(entries: Seq<Pair>) -> Map<Seq<char>, Seq<char>> {
    Map::new(|k: Seq<char>| lookup(entries, k) is Some, |k: Seq<char>| lookup(entries, k)->0)
}

/// `key_index_from` returns an index of `key` with none between `from` and it,
/// or `None` when no entry at or after `from` has that name.
pub proof fn lemma_key_index_from(entries: Seq<Pair>, key: Seq<char>, from: int)
    requires
        0 <= from,
    ensures
        match key_index_from(entries, key, from) {
            Some(i) => from <= i < entries.len() && entries[i].0 == key && forall|j: int|
                from <= j < i ==> entries[j].0 != key,
            None => forall|j: int| from <= j < entries.len() ==> entries[j].0 != key,
        },
    decreases entries.len() - from,
{
    if from < entries.len() && entries[from].0 != key {
        lemma_key_index_from(entries, key, from + 1);
    }
}

/// Two sequences with the same names at the same places find a name at the
/// same index.
proof fn lemma_key_index_same_names(a: Seq<Pair>, b: Seq<Pair>, key: Seq<char>, from: int)
    requires
        0 <= from,
        a.len() == b.len(),
        forall|i: int| 0 <= i < a.len() ==> a[i].0 == b[i].0,
    ensures
        key_index_from(a, key, from) == key_index_from(b, key, from),
    decreases a.len() - from,
{
    if from < a.len() && a[from].0 != key {
        lemma_key_index_same_names(a, b, key, from + 1);
    }
}

/// An entry with another name, added at the end, does not change where `key`
/// is found.
proof fn lemma_key_index_push_other(a: Seq<Pair>, p: Pair, key: Seq<char>, from: int)
    requires
        0 <= from,
        p.0 != key,
    ensures
        key_index_from(a.push(p), key, from) == key_index_from(a, key, from),
    decreases a.len() - from,
{
    let b = a.push(p);
    if from < a.len() {
        assert(b[from] == a[from]);
        if a[from].0 != key {
            lemma_key_index_push_other(a, p, key, from + 1);
        }
    } else if from == a.len() {
        assert(b[from] == p);
        assert(key_index_from(b, key, from + 1) is None);
    }
}

/// Putting a value is last-write-wins: afterwards `key` has `value`, and every
/// other name has what it had. No name occurs twice afterwards if none did
/// before.
pub proof fn lemma_put(entries: Seq<Pair>, key: Seq<char>, value: Seq<char>)
    ensures
        lookup(put(entries, key, value), key) == Some(value),
        forall|other: Seq<char>|
            other != key ==> lookup(put(entries, key, value), other) == lookup(entries, other),
        as_map(put(entries, key, value)) == as_map(entries).insert(key, value),
        distinct_keys(entries) ==> distinct_keys(put(entries, key, value)),
        put(entries, key, value).len() == entries.len() + if key_index(entries, key) is Some {
            0int
        } else {
            1int
        },
{
    let after = put(entries, key, value);
    lemma_key_index_from(entries, key, 0);
    lemma_key_index_from(after, key, 0);
    match key_index(entries, key) {
        Some(i) => {
            assert(after[i] == (key, value));
            assert forall|j: int| 0 <= j < after.len() implies after[j].0 == entries[j].0 by {}
            lemma_key_index_same_names(after, entries, key, 0);
        },
        None => {
            assert(after[entries.len() as int] == (key, value));
            assert forall|j: int| 0 <= j < entries.len() implies after[j].0 != key by {
                assert(after[j] == entries[j]);
            }
        },
    }
    assert forall|other: Seq<char>| other != key implies lookup(after, other) == lookup(
        entries,
        other,
    ) by {
        lemma_key_index_from(entries, other, 0);
        match key_index(entries, key) {
            Some(i) => {
                assert forall|j: int| 0 <= j < after.len() implies after[j].0 == entries[j].0 by {}
                lemma_key_index_same_names(after, entries, other, 0);
            },
            None => {
                lemma_key_index_push_other(entries, (key, value), other, 0);
            },
        }
    }
    assert(as_map(after) =~= as_map(entries).insert(key, value));
    if distinct_keys(entries) {
        assert forall|i: int, j: int| 0 <= i < j < after.len() implies after[i].0 != after[j].0 by {
            match key_index(entries, key) {
                Some(x) => {
                    assert(after[i].0 == entries[i].0);
                    assert(after[j].0 == entries[j].0);
                },
                None => {
                    assert(after[i] == entries[i]);
                    if j < entries.len() {
                        assert(after[j] == entries[j]);
                    }
                },
            }
        }
    }
}

/// Putting all pairs is putting all but the last, then the last.
pub proof fn lemma_put_all_last(entries: Seq<Pair>, pairs: Seq<Pair>)
    requires
        pairs.len() > 0,
    ensures
        put_all(entries, pairs) == put(
            put_all(entries, pairs.drop_last()),
            pairs.last().0,
            pairs.last().1,
        ),
    decreases pairs.len(),
{
    let next = put(entries, pairs[0].0, pairs[0].1);
    if pairs.len() == 1 {
        assert(pairs.drop_first() =~= Seq::<Pair>::empty());
        assert(pairs.drop_last() =~= Seq::<Pair>::empty());
        assert(put_all(next, pairs.drop_first()) == next);
        assert(put_all(entries, pairs.drop_last()) == entries);
    } else {
        lemma_put_all_last(next, pairs.drop_first());
        let shorter = pairs.drop_last();
        assert(pairs.drop_first().drop_last() =~= shorter.drop_first());
        assert(shorter[0] == pairs[0]);
        assert(put_all(entries, shorter) == put_all(next, shorter.drop_first()));
    }
}

/// Where several pairs have one name, the last of them wins: after all pairs
/// were put, a name has the value of the last pair that is named so, and a name
/// that no pair has keeps what it had. No name occurs twice afterwards if none
/// did before.
pub proof fn lemma_put_all_last_wins(entries: Seq<Pair>, pairs: Seq<Pair>, key: Seq<char>)
    ensures
        lookup(put_all(entries, pairs), key) == match last_value(pairs, key) {
            Some(v) => Some(v),
            None => lookup(entries, key),
        },
        distinct_keys(entries) ==> distinct_keys(put_all(entries, pairs)),
    decreases pairs.len(),
{
    if pairs.len() > 0 {
        lemma_put_all_last(entries, pairs);
        lemma_put_all_last_wins(entries, pairs.drop_last(), key);
        lemma_put(put_all(entries, pairs.drop_last()), pairs.last().0, pairs.last().1);
    }
}

/// An insertion-ordered mapping from names to values. Names are compared
/// exactly (case matters), and a name occurs once.
#[derive(Debug)]
pub struct HeaderMap {
    entries: Vec<(String, String)>,
}

impl View for HeaderMap {
    type V = Map<Seq<char>, Seq<char>>;

    open spec fn view(&self) -> Map<Seq<char>, Seq<char>> {
        as_map(self.entries())
    }
}

impl HeaderMap {
    /// The entries in order of first insertion.
    pub closed spec fn entries(&self) -> Seq<Pair> {
        Seq::new(self.entries@.len(), |i: int| (self.entries@[i].0@, self.entries@[i].1@))
    }

    /// Well-formedness: no name occurs twice. `new` establishes it and every
    /// method keeps it.
    pub open spec fn wf(&self) -> bool {
        distinct_keys(self.entries())
    }

    /// An empty mapping.
    pub fn new() -> (m: HeaderMap)
        ensures
            m.entries() == Seq::<Pair>::empty(),
            m.wf(),
    {
        let m = HeaderMap { entries: Vec::new() };
        assert(m.entries() =~= Seq::<Pair>::empty());
        m
    }

    /// The number of names.
    pub fn len(&self) -> (n: usize)
        ensures
            n == self.entries().len(),
    {
        self.entries.len()
    }

    /// Whether the mapping holds no name.
    pub fn is_empty(&self) -> (r: bool)
        ensures
            r == (self.entries().len() == 0),
    {
        self.entries.len() == 0
    }

    /// The index of the entry named `key`.
    fn position(&self, key: &String) -> (r: Option<usize>)
        ensures
            match r {
                Some(i) => key_index(self.entries(), key@) == Some(i as int) && i
                    < self.entries@.len(),
                None => key_index(self.entries(), key@) is None,
            },
    {
        let mut i: usize = 0;
        while i < self.entries.len()
            invariant
                i <= self.entries@.len(),
                key_index(self.entries(), key@) == key_index_from(self.entries(), key@, i as int),
            decreases self.entries@.len() - i,
        {
            if self.entries[i].0 == *key {
                return Some(i);
            }
            i += 1;
        }
        None
    }

    /// The value of `key`.
    pub fn get(&self, key: &str) -> (r: Option<&String>)
        ensures
            r is Some <==> lookup(self.entries(), key@) is Some,
            r is Some ==> r->0@ == lookup(self.entries(), key@)->0,
    {
        let k = key.to_owned();
        match self.position(&k) {
            Some(i) => Some(&self.entries[i].1),
            None => None,
        }
    }

    /// Whether `key` has a value.
    pub fn contains_key(&self, key: &str) -> (r: bool)
        ensures
            r == lookup(self.entries(), key@) is Some,
    {
        let k = key.to_owned();
        self.position(&k).is_some()
    }

    /// The name at position `i` in insertion order.
    pub fn key_at(&self, i: usize) -> (r: &String)
        requires
            i < self.entries().len(),
        ensures
            r@ == self.entries()[i as int].0,
    {
        &self.entries[i].0
    }

    /// The value at position `i` in insertion order.
    pub fn value_at(&self, i: usize) -> (r: &String)
        requires
            i < self.entries().len(),
        ensures
            r@ == self.entries()[i as int].1,
    {
        &self.entries[i].1
    }

    /// Gives `key` the value `value` and returns the value it had. A name that
    /// is already there keeps its place; a new one goes to the end.
    pub fn insert(&mut self, key: String, value: String) -> (r: Option<String>)
        ensures
            final(self).entries() == put(old(self).entries(), key@, value@),
            final(self)@ == old(self)@.insert(key@, value@),
            old(self).wf() ==> final(self).wf(),
            r is Some <==> lookup(old(self).entries(), key@) is Some,
            r is Some ==> r->0@ == lookup(old(self).entries(), key@)->0,
    {
        proof {
            lemma_put(self.entries(), key@, value@);
        }
        let ghost before = self.entries();
        match self.position(&key) {
            Some(i) => {
                let old_entry = self.entries.remove(i);
                self.entries.insert(i, (key, value));
                assert(self.entries() =~= put(before, key@, value@));
                Some(old_entry.1)
            },
            None => {
                self.entries.push((key, value));
                assert(self.entries() =~= put(before, key@, value@));
                None
            },
        }
    }
}

/// A copy has the same entries in the same order.
impl Clone for HeaderMap {
    fn clone(&self) -> (m: HeaderMap)
        ensures
            m.entries() == self.entries(),
    {
        let mut entries: Vec<(String, String)> = Vec::new();
        let mut i: usize = 0;
        while i < self.entries.len()
            invariant
                i <= self.entries@.len(),
                entries@.len() == i,
                forall|k: int|
                    0 <= k < i ==> entries@[k].0@ == self.entries@[k].0@ && entries@[k].1@
                        == self.entries@[k].1@,
            decreases self.entries@.len() - i,
        {
            entries.push((self.entries[i].0.clone(), self.entries[i].1.clone()));
            i += 1;
        }
        let m = HeaderMap { entries };
        assert(m.entries() =~= self.entries());
        m
    }
}

} // verus!
