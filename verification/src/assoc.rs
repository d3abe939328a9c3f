//! Association lists keyed by strings: the storage behind the gene library
//! and the machine's local definitions. Keys are unique; inserting an existing
//! key replaces its value in place, a new key goes to the end.

use vstd::prelude::*;

verus! {

/// The keys of a list of entries.
pub open spec fn keys<V>(entries: Seq<(Seq<char>, V)>) -> Seq<Seq<char>> {
    entries.map_values(|e: (Seq<char>, V)| e.0)
}

/// The mathematical entries of an executable association list.
pub open spec fn entries_view<V: View>(entries: Seq<(String, V)>) -> Seq<(Seq<char>, V::V)> {
    entries.map_values(|e: (String, V)| (e.0@, e.1@))
}

/// No key occurs twice.
pub open spec fn unique_keys<V>(entries: Seq<(Seq<char>, V)>) -> bool {
    keys(entries).no_duplicates()
}

/// The position of `key`, or -1 when it is absent.
pub open spec fn index_of<V>(entries: Seq<(Seq<char>, V)>, key: Seq<char>) -> int {
    if exists|i: int| 0 <= i < entries.len() && entries[i].0 == key {
        choose|i: int| 0 <= i < entries.len() && entries[i].0 == key
    } else {
        -1
    }
}

/// The entries after binding `key` to `value`.
pub open spec fn insert_entry<V>(entries: Seq<(Seq<char>, V)>, key: Seq<char>, value: V) -> Seq<(Seq<char>, V)> {
    let i = index_of(entries, key);
    if i >= 0 {
        entries.update(i, (key, value))
    } else {
        entries.push((key, value))
    }
}

/// With unique keys, `index_of` names the only position holding the key.
pub proof fn lemma_index_of_unique<V>(entries: Seq<(Seq<char>, V)>, key: Seq<char>, i: int)
    requires
        unique_keys(entries),
        0 <= i < entries.len(),
        entries[i].0 == key,
    ensures
        index_of(entries, key) == i,
{
    let j = index_of(entries, key);
    assert(keys(entries)[i] == key);
    assert(keys(entries)[j] == key);
}

/// `index_of` is -1 or a position holding the key.
pub proof fn lemma_index_of_range<V>(entries: Seq<(Seq<char>, V)>, key: Seq<char>)
    ensures
        -1 <= index_of(entries, key) < entries.len(),
        index_of(entries, key) >= 0 ==> entries[index_of(entries, key)].0 == key,
        index_of(entries, key) == -1 ==> forall|i: int| 0 <= i < entries.len() ==> entries[i].0 != key,
{
}

/// Inserting keeps keys unique.
pub proof fn lemma_insert_unique<V>(entries: Seq<(Seq<char>, V)>, key: Seq<char>, value: V)
    requires
        unique_keys(entries),
    ensures
        unique_keys(insert_entry(entries, key, value)),
{
    let r = insert_entry(entries, key, value);
    lemma_index_of_range(entries, key);
    assert forall|i: int, j: int| 0 <= i < r.len() && 0 <= j < r.len() && i != j implies keys(r)[i] != keys(r)[j] by {
        assert(keys(entries)[i] == entries[i].0 || i == entries.len());
        if i < entries.len() && j < entries.len() {
            assert(keys(entries)[i] != keys(entries)[j]);
        }
    }
}

/// Finds the position of `key`.
pub(crate) fn find_key<V: View>(entries: &Vec<(String, V)>, key: &String) -> (r: Option<usize>)
    requires
        unique_keys(entries_view(entries@)),
    ensures
        match r {
            Some(i) => i == index_of(entries_view(entries@), key@),
            None => index_of(entries_view(entries@), key@) == -1,
        },
{
    let ghost ev = entries_view(entries@);
    let n = entries.len();
    let mut i: usize = 0;
    while i < n
        invariant
            n == entries@.len(),
            ev == entries_view(entries@),
            unique_keys(ev),
            0 <= i <= n,
            forall|j: int| 0 <= j < i ==> ev[j].0 != key@,
        decreases n - i,
    {
        if entries[i].0 == *key {
            proof { lemma_index_of_unique(ev, key@, i as int); }
            return Some(i);
        }
        i = i + 1;
    }
    None
}

/// Binds `key` to `value`, replacing an existing binding in place.
pub(crate) fn insert_key<V: View>(entries: &mut Vec<(String, V)>, key: String, value: V)
    requires
        unique_keys(entries_view(old(entries)@)),
    ensures
        entries_view(final(entries)@) == insert_entry(entries_view(old(entries)@), key@, value@),
        unique_keys(entries_view(final(entries)@)),
{
    let ghost before = entries_view(entries@);
    let ghost k = key@;
    let ghost v = value@;
    match find_key(entries, &key) {
        Some(i) => {
            entries.set(i, (key, value));
            assert(entries_view(final(entries)@) =~= insert_entry(before, k, v));
        },
        None => {
            entries.push((key, value));
            assert(entries_view(final(entries)@) =~= insert_entry(before, k, v));
        },
    }
    proof { lemma_insert_unique(before, k, v); }
}

} // verus!
