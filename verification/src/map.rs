//! Maps from strings, as a list of entries in which the last entry for a key
//! is the one that counts.

use vstd::prelude::*;

use crate::text::str_eq;

verus! {

/// The map that a list of entries stands for.
pub open spec fn entry_map<V>(entries: Seq<(String, V)>) -> Map<Seq<char>, V>
    decreases entries.len(),
{
    if entries.len() == 0 {
        Map::empty()
    } else {
        entry_map(entries.drop_last()).insert(entries.last().0@, entries.last().1)
    }
}

/// A map from strings.
#[derive(Debug, Clone)]
pub struct StrMap<V> {
    /// The entries, later ones over earlier ones.
    pub entries: Vec<(String, V)>,
}

impl<V> View for StrMap<V> {
    type V = Map<Seq<char>, V>;

    open spec fn view(&self) -> Map<Seq<char>, V> {
        entry_map(self.entries@)
    }
}

impl<V> StrMap<V> {
    /// The empty map.
    pub fn new() -> (r: Self)
        ensures
            r@ == Map::<Seq<char>, V>::empty(),
    {
        StrMap { entries: Vec::new() }
    }

    /// Maps `key` to `value`, whatever it was mapped to before.
    pub fn insert(&mut self, key: String, value: V)
        ensures
            final(self)@ == old(self)@.insert(key@, value),
    {
        self.entries.push((key, value));
        assert(self.entries@.drop_last() =~= old(self).entries@);
    }

    /// What `key` is mapped to.
    pub fn get(&self, key: &str) -> (r: Option<&V>)
        ensures
            match r {
                Some(v) => self@.contains_key(key@) && self@[key@] == *v,
                None => !self@.contains_key(key@),
            },
    {
        let mut i: usize = self.entries.len();
        assert(self.entries@.take(i as int) =~= self.entries@);
        while i > 0
            invariant
                i <= self.entries@.len(),
                self@.contains_key(key@) == entry_map(self.entries@.take(i as int)).contains_key(
                    key@,
                ),
                self@.contains_key(key@) ==> self@[key@] == entry_map(
                    self.entries@.take(i as int),
                )[key@],
            decreases i,
        {
            let ghost head = self.entries@.take(i as int);
            assert(head.drop_last() =~= self.entries@.take(i - 1));
            assert(head.last() == self.entries@[i - 1]);
            if str_eq(self.entries[i - 1].0.as_str(), key) {
                return Some(&self.entries[i - 1].1);
            }
            i = i - 1;
        }
        None
    }

    /// Maps what `other` maps as `other` does, and all else as before.
    pub fn extend(&mut self, other: StrMap<V>)
        ensures
            final(self)@ == old(self)@.union_prefer_right(other@),
    {
        let mut entries = other.entries;
        proof {
            lemma_entries_concat(self.entries@, entries@);
        }
        self.entries.append(&mut entries);
    }
}

/// Entries after entries are a map over a map.
pub proof fn lemma_entries_concat<V>(a: Seq<(String, V)>, b: Seq<(String, V)>)
    ensures
        entry_map(a + b) == entry_map(a).union_prefer_right(entry_map(b)),
    decreases b.len(),
{
    if b.len() == 0 {
        assert(a + b =~= a);
    } else {
        lemma_entries_concat(a, b.drop_last());
        assert((a + b).drop_last() =~= a + b.drop_last());
        assert((a + b).last() == b.last());
    }
    assert(entry_map(a + b) =~= entry_map(a).union_prefer_right(entry_map(b)));
}

impl StrMap<String> {
    /// A copy of the map.
    pub fn duplicate(&self) -> (r: Self)
        ensures
            r@ == self@,
    {
        let mut entries: Vec<(String, String)> = Vec::new();
        let mut i: usize = 0;
        while i < self.entries.len()
            invariant
                i <= self.entries@.len(),
                entries@ == self.entries@.take(i as int),
            decreases self.entries@.len() - i,
        {
            entries.push((self.entries[i].0.clone(), self.entries[i].1.clone()));
            assert(self.entries@.take(i + 1) =~= self.entries@.take(i as int).push(
                self.entries@[i as int],
            ));
            i = i + 1;
        }
        assert(self.entries@.take(i as int) =~= self.entries@);
        StrMap { entries }
    }
}

/// The last entry for a key counts: looking a key up gives its value, whatever
/// stands before it and whatever other keys stand behind it. A key without an
/// entry is not found.
pub proof fn law_last_entry_counts<V>(m: &StrMap<V>, key: &str, r: Option<&V>, i: int)
    requires
        call_ensures(StrMap::<V>::get, (m, key), r),
    ensures
        0 <= i < m.entries@.len() && m.entries@[i].0@ == key@ && (forall|j: int|
            i < j < m.entries@.len() ==> (#[trigger] m.entries@[j]).0@ != key@) ==> r
            == Some(&m.entries@[i].1),
        (forall|j: int| 0 <= j < m.entries@.len() ==> (#[trigger] m.entries@[j]).0@ != key@)
            ==> r is None,
{
    if forall|j: int| 0 <= j < m.entries@.len() ==> (#[trigger] m.entries@[j]).0@ != key@ {
        lemma_absent(m.entries@, key@);
    }
    if 0 <= i < m.entries@.len() && m.entries@[i].0@ == key@ && (forall|j: int|
        i < j < m.entries@.len() ==> (#[trigger] m.entries@[j]).0@ != key@) {
        lemma_last_entry(m.entries@, key@, i);
    }
}

/// A key without an entry is not in the map.
proof fn lemma_absent<V>(entries: Seq<(String, V)>, key: Seq<char>)
    requires
        forall|j: int| 0 <= j < entries.len() ==> (#[trigger] entries[j]).0@ != key,
    ensures
        !entry_map(entries).contains_key(key),
    decreases entries.len(),
{
    if entries.len() > 0 {
        assert(entries.last() == entries[entries.len() - 1]);
        lemma_absent(entries.drop_last(), key);
    }
}

/// The last entry for a key is in the map.
proof fn lemma_last_entry<V>(entries: Seq<(String, V)>, key: Seq<char>, i: int)
    requires
        0 <= i < entries.len(),
        entries[i].0@ == key,
        forall|j: int| i < j < entries.len() ==> (#[trigger] entries[j]).0@ != key,
    ensures
        entry_map(entries).contains_key(key),
        entry_map(entries)[key] == entries[i].1,
    decreases entries.len(),
{
    if i < entries.len() - 1 {
        assert(entries.last() == entries[entries.len() - 1]);
        lemma_last_entry(entries.drop_last(), key, i);
    }
}

/// What was inserted is found, and every other key is mapped as before.
pub proof fn law_inserted_is_found<V>(
    m: &mut StrMap<V>,
    key: String,
    value: V,
    other: &str,
    before: Option<&V>,
    after: Option<&V>,
)
    requires
        call_ensures(StrMap::<V>::insert, (m, key, value), ()),
        call_ensures(StrMap::<V>::get, (old(m), other), before),
        call_ensures(StrMap::<V>::get, (final(m), other), after),
    ensures
        other@ == key@ ==> after == Some(&value),
        other@ != key@ ==> after == before,
{
}

/// An extended map is the other map over the first one.
pub proof fn law_extended_map<V>(
    m: &mut StrMap<V>,
    other: StrMap<V>,
    key: &str,
    below: Option<&V>,
    above: Option<&V>,
    after: Option<&V>,
)
    requires
        call_ensures(StrMap::<V>::extend, (m, other), ()),
        call_ensures(StrMap::<V>::get, (old(m), key), below),
        call_ensures(StrMap::<V>::get, (&other, key), above),
        call_ensures(StrMap::<V>::get, (final(m), key), after),
    ensures
        after == if above is Some {
            above
        } else {
            below
        },
{
}

/// A copy maps as its source does, and a new map maps nothing.
pub proof fn law_copied_map(
    m: &StrMap<String>,
    copy: StrMap<String>,
    blank: StrMap<String>,
    key: &str,
    here: Option<&String>,
    there: Option<&String>,
    nowhere: Option<&String>,
)
    requires
        call_ensures(StrMap::<String>::duplicate, (m,), copy),
        call_ensures(StrMap::<String>::new, (), blank),
        call_ensures(StrMap::<String>::get, (m, key), here),
        call_ensures(StrMap::<String>::get, (&copy, key), there),
        call_ensures(StrMap::<String>::get, (&blank, key), nowhere),
    ensures
        there == here,
        nowhere is None,
{
}

} // verus!
