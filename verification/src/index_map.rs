//! The insertion-ordered maps a document is stored in, kept by `indexmap`.
//!
//! What an [`IndexMap`] holds is modelled as a sequence of key-value pairs in insertion
//! order, each key taken by its characters. The wrappers below state what each method the
//! document model calls does to that sequence.

use crate::ini::{Entry, EntryModel, Section, SectionModel};
use indexmap::IndexMap;
use vstd::prelude::*;
use vstd::string::*;

verus! {

#[verifier::external_type_specification]
#[verifier::external_body]
#[verifier::reject_recursive_types(K)]
#[verifier::reject_recursive_types(V)]
#[verifier::reject_recursive_types(S)]
pub struct ExIndexMap<K, V, S>(IndexMap<K, V, S>);

/// `IndexMap::clone`, which a derived `Clone` calls. Nothing is claimed of the copy: what
/// it holds depends on the `Clone` impls of the key and value types, which are generic here.
pub assume_specification<K, V, S>[ <IndexMap<K, V, S> as Clone>::clone ](m: &IndexMap<K, V, S>) -> IndexMap<K, V, S>
    where
        K: Clone,
        V: Clone,
        S: Clone,
;

/// `IndexMap::eq`, which a derived `PartialEq` calls. Nothing is claimed of the answer: it
/// compares the two maps as sets of pairs, through the generic value type's `PartialEq`.
pub assume_specification<K, V1, S1, V2, S2>[ <IndexMap<K, V1, S1> as PartialEq<IndexMap<K, V2, S2>>>::eq ](
    m: &IndexMap<K, V1, S1>,
    other: &IndexMap<K, V2, S2>,
) -> bool
    where
        K: std::hash::Hash + Eq,
        V1: PartialEq<V2>,
        S1: std::hash::BuildHasher,
        S2: std::hash::BuildHasher,
;

/// The first position at which `key` is stored, or `-1` when it is not.
pub open spec fn key_index<V>(entries: Seq<(Seq<char>, V)>, key: Seq<char>) -> int
    decreases entries.len(),
{
    if entries.len() == 0 {
        -1
    } else {
        let i = key_index(entries.drop_last(), key);
        if i >= 0 {
            i
        } else if entries.last().0 == key {
            entries.len() - 1
        } else {
            -1
        }
    }
}

/// No key is stored twice.
pub open spec fn unique_keys<V>(entries: Seq<(Seq<char>, V)>) -> bool {
    forall|i: int, j: int| 0 <= i < j < entries.len() ==> (#[trigger] entries[i]).0 != (#[trigger] entries[j]).0
}

/// The value stored under `key`, if any.
pub open spec fn lookup<V>(entries: Seq<(Seq<char>, V)>, key: Seq<char>) -> Option<V> {
    let i = key_index(entries, key);
    if i >= 0 {
        Some(entries[i].1)
    } else {
        None
    }
}

/// `entries` with `key` set to `value`: in place, keeping the stored key, when `key` is
/// already there, and appended last otherwise.
pub open spec fn inserted<V>(entries: Seq<(Seq<char>, V)>, key: Seq<char>, value: V) -> Seq<(Seq<char>, V)> {
    let i = key_index(entries, key);
    if i >= 0 {
        entries.update(i, (entries[i].0, value))
    } else {
        entries.push((key, value))
    }
}

/// `entries` without `key`, the later pairs shifted down in order.
pub open spec fn removed<V>(entries: Seq<(Seq<char>, V)>, key: Seq<char>) -> Seq<(Seq<char>, V)> {
    let i = key_index(entries, key);
    if i >= 0 {
        entries.remove(i)
    } else {
        entries
    }
}

/// The keys in order.
pub open spec fn keys_of<V>(entries: Seq<(Seq<char>, V)>) -> Seq<Seq<char>> {
    entries.map_values(|p: (Seq<char>, V)| p.0)
}

/// What `key_index` finds: the first position holding `key`, or none at all.
pub proof fn lemma_key_index<V>(entries: Seq<(Seq<char>, V)>, key: Seq<char>)
    ensures
        -1 <= key_index(entries, key) < entries.len(),
        key_index(entries, key) >= 0 ==> entries[key_index(entries, key)].0 == key,
        forall|j: int| 0 <= j < entries.len() && j < key_index(entries, key) ==> (#[trigger] entries[j]).0 != key,
        key_index(entries, key) < 0 ==> forall|j: int| 0 <= j < entries.len() ==> (#[trigger] entries[j]).0 != key,
    decreases entries.len(),
{
    if entries.len() > 0 {
        lemma_key_index(entries.drop_last(), key);
        assert forall|j: int| 0 <= j < entries.len() - 1 implies #[trigger] entries[j] == entries.drop_last()[j] by {}
    }
}

/// With unique keys, the position holding `key` is the only one.
pub proof fn lemma_key_index_unique<V>(entries: Seq<(Seq<char>, V)>, key: Seq<char>, j: int)
    requires
        unique_keys(entries),
        0 <= j < entries.len(),
        entries[j].0 == key,
    ensures
        key_index(entries, key) == j,
{
    lemma_key_index(entries, key);
}

/// Setting or removing a key keeps every key unique.
pub proof fn lemma_unique_preserved<V>(entries: Seq<(Seq<char>, V)>, key: Seq<char>, value: V)
    requires
        unique_keys(entries),
    ensures
        unique_keys(inserted(entries, key, value)),
        unique_keys(removed(entries, key)),
{
    lemma_key_index(entries, key);
    let i = key_index(entries, key);
    let ins = inserted(entries, key, value);
    assert forall|a: int, b: int| 0 <= a < b < ins.len() implies (#[trigger] ins[a]).0 != (#[trigger] ins[b]).0 by {
        if i < 0 && b == entries.len() {
            assert(ins[a] == entries[a]);
        } else {
            assert(ins[a].0 == entries[a].0);
            assert(ins[b].0 == entries[b].0);
        }
    }
    let rem = removed(entries, key);
    assert forall|a: int, b: int| 0 <= a < b < rem.len() implies (#[trigger] rem[a]).0 != (#[trigger] rem[b]).0 by {
        if i >= 0 {
            let a2 = if a < i { a } else { a + 1 };
            let b2 = if b < i { b } else { b + 1 };
            assert(rem[a] == entries[a2]);
            assert(rem[b] == entries[b2]);
        }
    }
}

/// The position of a key depends only on the keys, not on the values stored with them.
pub proof fn lemma_key_index_keys_only<V>(a: Seq<(Seq<char>, V)>, b: Seq<(Seq<char>, V)>, key: Seq<char>)
    requires
        a.len() == b.len(),
        forall|i: int| 0 <= i < a.len() ==> (#[trigger] a[i]).0 == b[i].0,
    ensures
        key_index(a, key) == key_index(b, key),
    decreases a.len(),
{
    if a.len() > 0 {
        assert forall|i: int| 0 <= i < a.drop_last().len() implies (#[trigger] a.drop_last()[i]).0 == b.drop_last()[i].0 by {
            assert(a.drop_last()[i] == a[i]);
            assert(b.drop_last()[i] == b[i]);
        }
        lemma_key_index_keys_only(a.drop_last(), b.drop_last(), key);
    }
}

/// After `key` is set to `value`, looking `key` up finds `value`, and looking up any other
/// key finds what it found before.
pub proof fn lemma_lookup_inserted<V>(entries: Seq<(Seq<char>, V)>, key: Seq<char>, value: V, probe: Seq<char>)
    ensures
        lookup(inserted(entries, key, value), probe) == if probe == key {
            Some(value)
        } else {
            lookup(entries, probe)
        },
{
    let i = key_index(entries, key);
    lemma_key_index(entries, key);
    let after = inserted(entries, key, value);
    lemma_key_index(entries, probe);
    if i >= 0 {
        lemma_key_index_keys_only(after, entries, probe);
        let j = key_index(entries, probe);
        if probe != key && j >= 0 {
            assert(j != i);
            assert(after[j] == entries[j]);
        }
    } else {
        assert(after.drop_last() =~= entries);
        assert(after.last() == (key, value));
        if probe == key {
            assert(key_index(after, probe) == entries.len());
        } else {
            assert(key_index(after, probe) == key_index(entries, probe));
            let j = key_index(entries, probe);
            if j >= 0 {
                assert(after[j] == entries[j]);
            }
        }
    }
}

/// With unique keys, after `key` is removed looking it up finds nothing, and looking up any
/// other key finds what it found before.
pub proof fn lemma_lookup_removed<V>(entries: Seq<(Seq<char>, V)>, key: Seq<char>, probe: Seq<char>)
    requires
        unique_keys(entries),
    ensures
        lookup(removed(entries, key), probe) == if probe == key {
            None
        } else {
            lookup(entries, probe)
        },
{
    let i = key_index(entries, key);
    lemma_key_index(entries, key);
    lemma_key_index(entries, probe);
    lemma_unique_preserved(entries, key, arbitrary());
    let after = removed(entries, key);
    lemma_key_index(after, probe);
    if i >= 0 {
        assert forall|j: int| 0 <= j < after.len() implies #[trigger] after[j] == entries[if j < i { j } else { j + 1 }] by {}
        let at = key_index(after, probe);
        if at >= 0 {
            let from = if at < i { at } else { at + 1 };
            assert(after[at] == entries[from]);
            lemma_key_index_unique(entries, probe, from);
        }
        let j = key_index(entries, probe);
        if j >= 0 && probe != key {
            assert(j != i);
            let to = if j < i { j } else { j - 1 };
            assert(after[to] == entries[j]);
            lemma_key_index_unique(after, probe, to);
        }
    }
}

/// Setting a key that is already held keeps every key in its place; setting a new key
/// appends it last.
pub proof fn lemma_keys_inserted<V>(entries: Seq<(Seq<char>, V)>, key: Seq<char>, value: V)
    ensures
        keys_of(inserted(entries, key, value)) == if key_index(entries, key) >= 0 {
            keys_of(entries)
        } else {
            keys_of(entries).push(key)
        },
{
    lemma_key_index(entries, key);
    let after = inserted(entries, key, value);
    if key_index(entries, key) >= 0 {
        assert(keys_of(after) =~= keys_of(entries));
    } else {
        assert(keys_of(after) =~= keys_of(entries).push(key));
    }
}

/// What an option map holds, in order: each stored key with its entry, by their views.
pub uninterp spec fn option_entries(m: IndexMap<String, Entry>) -> Seq<(Seq<char>, EntryModel)>;

/// What a section map holds, in order: each section name with its section, by their views.
pub uninterp spec fn section_entries(m: IndexMap<String, Section>) -> Seq<(Seq<char>, SectionModel)>;

/// `IndexMap::new`: a map holding nothing.
#[verifier::external_body]
pub(crate) fn option_map_new() -> (res: IndexMap<String, Entry>)
    ensures
        option_entries(res) == Seq::<(Seq<char>, EntryModel)>::empty(),
{
    IndexMap::new()
}

/// `IndexMap::len`: the number of pairs held.
#[verifier::external_body]
pub(crate) fn option_map_len(m: &IndexMap<String, Entry>) -> (res: usize)
    ensures
        res == option_entries(*m).len(),
{
    m.len()
}

/// `IndexMap::get_full`: the position, stored key and value of `key`, if held.
#[verifier::external_body]
pub(crate) fn option_map_get_full<'m>(m: &'m IndexMap<String, Entry>, key: &str) -> (res: Option<(usize, &'m String, &'m Entry)>)
    ensures
        match res {
            Some((i, k, e)) => {
                &&& i == key_index(option_entries(*m), key@)
                &&& k@ == option_entries(*m)[i as int].0
                &&& e@ == option_entries(*m)[i as int].1
            },
            None => key_index(option_entries(*m), key@) < 0,
        },
{
    m.get_full(key)
}

/// `IndexMap::get_index`: the pair at position `i`, if there is one.
#[verifier::external_body]
pub(crate) fn option_map_get_index<'m>(m: &'m IndexMap<String, Entry>, i: usize) -> (res: Option<(&'m String, &'m Entry)>)
    ensures
        match res {
            Some((k, e)) => {
                &&& i < option_entries(*m).len()
                &&& k@ == option_entries(*m)[i as int].0
                &&& e@ == option_entries(*m)[i as int].1
            },
            None => i >= option_entries(*m).len(),
        },
{
    m.get_index(i)
}

/// `IndexMap::get_mut`: the value of `key`, if held, for modification in place.
#[verifier::external_body]
pub(crate) fn option_map_get_mut<'m>(m: &'m mut IndexMap<String, Entry>, key: &str) -> (res: Option<&'m mut Entry>)
    ensures
        match res {
            Some(e) => {
                let i = key_index(option_entries(*old(m)), key@);
                &&& i >= 0
                &&& e@ == option_entries(*old(m))[i].1
                &&& option_entries(*final(m)) == option_entries(*old(m)).update(
                    i,
                    (option_entries(*old(m))[i].0, final(e)@),
                )
            },
            None => {
                &&& key_index(option_entries(*old(m)), key@) < 0
                &&& option_entries(*final(m)) == option_entries(*old(m))
            },
        },
{
    m.get_mut(key)
}


/// `IndexMap::insert`: sets `key` to `value` in place when an equal key is held (the held
/// key stays, and so does its position), else appends the pair; returns the value replaced.
#[verifier::external_body]
pub(crate) fn option_map_insert(m: &mut IndexMap<String, Entry>, key: String, value: Entry) -> (res: Option<Entry>)
    ensures
        option_entries(*final(m)) == inserted(option_entries(*old(m)), key@, value@),
        match res {
            Some(e) => lookup(option_entries(*old(m)), key@) == Some(e@),
            None => lookup(option_entries(*old(m)), key@) is None,
        },
{
    m.insert(key, value)
}

/// `IndexMap::shift_remove`: removes `key`, shifting the later pairs down in order;
/// returns the value removed.
#[verifier::external_body]
pub(crate) fn option_map_shift_remove(m: &mut IndexMap<String, Entry>, key: &str) -> (res: Option<Entry>)
    ensures
        option_entries(*final(m)) == removed(option_entries(*old(m)), key@),
        match res {
            Some(e) => lookup(option_entries(*old(m)), key@) == Some(e@),
            None => lookup(option_entries(*old(m)), key@) is None,
        },
{
    m.shift_remove(key)
}

/// `IndexMap::clear`: removes every pair.
#[verifier::external_body]
pub(crate) fn option_map_clear(m: &mut IndexMap<String, Entry>)
    ensures
        option_entries(*final(m)) == Seq::<(Seq<char>, EntryModel)>::empty(),
{
    m.clear()
}

/// `IndexMap::new`: a map holding nothing.
#[verifier::external_body]
pub(crate) fn section_map_new() -> (res: IndexMap<String, Section>)
    ensures
        section_entries(res) == Seq::<(Seq<char>, SectionModel)>::empty(),
{
    IndexMap::new()
}

/// `IndexMap::len`: the number of pairs held.
#[verifier::external_body]
pub(crate) fn section_map_len(m: &IndexMap<String, Section>) -> (res: usize)
    ensures
        res == section_entries(*m).len(),
{
    m.len()
}

/// `IndexMap::get_full`: the position, stored key and value of `key`, if held.
#[verifier::external_body]
pub(crate) fn section_map_get_full<'m>(m: &'m IndexMap<String, Section>, key: &str) -> (res: Option<(usize, &'m String, &'m Section)>)
    ensures
        match res {
            Some((i, k, e)) => {
                &&& i == key_index(section_entries(*m), key@)
                &&& k@ == section_entries(*m)[i as int].0
                &&& e@ == section_entries(*m)[i as int].1
            },
            None => key_index(section_entries(*m), key@) < 0,
        },
{
    m.get_full(key)
}

/// `IndexMap::get_index`: the pair at position `i`, if there is one.
#[verifier::external_body]
pub(crate) fn section_map_get_index<'m>(m: &'m IndexMap<String, Section>, i: usize) -> (res: Option<(&'m String, &'m Section)>)
    ensures
        match res {
            Some((k, e)) => {
                &&& i < section_entries(*m).len()
                &&& k@ == section_entries(*m)[i as int].0
                &&& e@ == section_entries(*m)[i as int].1
            },
            None => i >= section_entries(*m).len(),
        },
{
    m.get_index(i)
}

/// `IndexMap::get_mut`: the value of `key`, if held, for modification in place.
#[verifier::external_body]
pub(crate) fn section_map_get_mut<'m>(m: &'m mut IndexMap<String, Section>, key: &str) -> (res: Option<&'m mut Section>)
    ensures
        match res {
            Some(e) => {
                let i = key_index(section_entries(*old(m)), key@);
                &&& i >= 0
                &&& e@ == section_entries(*old(m))[i].1
                &&& section_entries(*final(m)) == section_entries(*old(m)).update(
                    i,
                    (section_entries(*old(m))[i].0, final(e)@),
                )
            },
            None => {
                &&& key_index(section_entries(*old(m)), key@) < 0
                &&& section_entries(*final(m)) == section_entries(*old(m))
            },
        },
{
    m.get_mut(key)
}


/// `IndexMap::insert`: sets `key` to `value` in place when an equal key is held (the held
/// key stays, and so does its position), else appends the pair; returns the value replaced.
#[verifier::external_body]
pub(crate) fn section_map_insert(m: &mut IndexMap<String, Section>, key: String, value: Section) -> (res: Option<Section>)
    ensures
        section_entries(*final(m)) == inserted(section_entries(*old(m)), key@, value@),
        match res {
            Some(e) => lookup(section_entries(*old(m)), key@) == Some(e@),
            None => lookup(section_entries(*old(m)), key@) is None,
        },
{
    m.insert(key, value)
}

/// `IndexMap::shift_remove`: removes `key`, shifting the later pairs down in order;
/// returns the value removed.
#[verifier::external_body]
pub(crate) fn section_map_shift_remove(m: &mut IndexMap<String, Section>, key: &str) -> (res: Option<Section>)
    ensures
        section_entries(*final(m)) == removed(section_entries(*old(m)), key@),
        match res {
            Some(e) => lookup(section_entries(*old(m)), key@) == Some(e@),
            None => lookup(section_entries(*old(m)), key@) is None,
        },
{
    m.shift_remove(key)
}

/// `IndexMap::clear`: removes every pair.
#[verifier::external_body]
pub(crate) fn section_map_clear(m: &mut IndexMap<String, Section>)
    ensures
        section_entries(*final(m)) == Seq::<(Seq<char>, SectionModel)>::empty(),
{
    m.clear()
}

} // verus!
