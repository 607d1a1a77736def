//! Lists of keyed entries, read as maps.
use vstd::prelude::*;

verus! {

/// The map that a list of entries stands for: later entries win.
pub open spec fn entries_map<K, V>(entries: Seq<(K, V)>) -> Map<K, V>
    decreases entries.len(),
{
    if entries.len() == 0 {
        Map::empty()
    } else {
        entries_map(entries.drop_last()).insert(entries.last().0, entries.last().1)
    }
}

/// No two entries have the same key.
pub open spec fn keys_distinct<K, V>(entries: Seq<(K, V)>) -> bool {
    forall|i: int, j: int| 0 <= i < j < entries.len() ==> entries[i].0 != entries[j].0
}

pub proof fn lemma_entries_have_keys<K, V>(entries: Seq<(K, V)>)
    ensures
        forall|key: K| #[trigger]
            entries_map(entries).contains_key(key) <==> exists|i: int|
                0 <= i < entries.len() && entries[i].0 == key,
    decreases entries.len(),
{
    if entries.len() > 0 {
        let rest = entries.drop_last();
        lemma_entries_have_keys(rest);
        assert forall|key: K| #[trigger]
            entries_map(entries).contains_key(key) <==> exists|i: int|
                0 <= i < entries.len() && entries[i].0 == key by {
            if entries_map(entries).contains_key(key) {
                if key == entries.last().0 {
                    assert(entries[entries.len() - 1].0 == key);
                } else {
                    assert(entries_map(rest).contains_key(key));
                    let i = choose|i: int| 0 <= i < rest.len() && rest[i].0 == key;
                    assert(entries[i].0 == key);
                }
            }
            if exists|i: int| 0 <= i < entries.len() && entries[i].0 == key {
                let i = choose|i: int| 0 <= i < entries.len() && entries[i].0 == key;
                if i < rest.len() {
                    assert(rest[i].0 == key);
                    assert(entries_map(rest).contains_key(key));
                }
            }
        }
    }
}

pub proof fn lemma_entry_at<K, V>(entries: Seq<(K, V)>, at: int)
    requires
        keys_distinct(entries),
        0 <= at < entries.len(),
    ensures
        entries_map(entries).contains_key(entries[at].0),
        entries_map(entries)[entries[at].0] == entries[at].1,
    decreases entries.len(),
{
    if at < entries.len() - 1 {
        let rest = entries.drop_last();
        assert(rest[at] == entries[at]);
        assert(entries[at].0 != entries[entries.len() - 1].0);
        lemma_entry_at(rest, at);
    }
}

pub proof fn lemma_latest_entry<K, V>(entries: Seq<(K, V)>, at: int)
    requires
        0 <= at < entries.len(),
        forall|i: int| at < i < entries.len() ==> entries[i].0 != entries[at].0,
    ensures
        entries_map(entries).contains_key(entries[at].0),
        entries_map(entries)[entries[at].0] == entries[at].1,
    decreases entries.len(),
{
    if at < entries.len() - 1 {
        let rest = entries.drop_last();
        assert(rest[at] == entries[at]);
        assert(entries[entries.len() - 1].0 != entries[at].0);
        lemma_latest_entry(rest, at);
    }
}

pub proof fn lemma_entries_push<K, V>(entries: Seq<(K, V)>, key: K, value: V)
    ensures
        entries_map(entries.push((key, value))) == entries_map(entries).insert(key, value),
        keys_distinct(entries) && !entries_map(entries).contains_key(key) ==> keys_distinct(
            entries.push((key, value)),
        ),
{
    assert(entries.push((key, value)).drop_last() =~= entries);
    lemma_entries_have_keys(entries);
    if keys_distinct(entries) && !entries_map(entries).contains_key(key) {
        let longer = entries.push((key, value));
        assert forall|i: int, j: int| 0 <= i < j < longer.len() implies longer[i].0
            != longer[j].0 by {
            if j == entries.len() {
                assert(longer[i] == entries[i]);
                if entries[i].0 == key {
                    assert(entries_map(entries).contains_key(key));
                }
            }
        }
    }
}

pub proof fn lemma_entries_update<K, V>(entries: Seq<(K, V)>, at: int, value: V)
    requires
        keys_distinct(entries),
        0 <= at < entries.len(),
    ensures
        entries_map(entries.update(at, (entries[at].0, value))) == entries_map(entries).insert(
            entries[at].0,
            value,
        ),
        keys_distinct(entries.update(at, (entries[at].0, value))),
    decreases entries.len(),
{
    let key = entries[at].0;
    let updated = entries.update(at, (key, value));
    let rest = entries.drop_last();
    if at == entries.len() - 1 {
        assert(updated.drop_last() =~= rest);
        assert(entries_map(updated) =~= entries_map(entries).insert(key, value));
    } else {
        assert(rest[at] == entries[at]);
        lemma_entries_update(rest, at, value);
        assert(updated.drop_last() =~= rest.update(at, (key, value)));
        assert(entries[at].0 != entries[entries.len() - 1].0);
        assert(entries_map(updated) =~= entries_map(entries).insert(key, value));
    }
}

pub proof fn lemma_entries_count<K, V>(entries: Seq<(K, V)>)
    requires
        keys_distinct(entries),
    ensures
        entries_map(entries).dom().finite(),
        entries_map(entries).dom().len() == entries.len(),
    decreases entries.len(),
{
    if entries.len() > 0 {
        let rest = entries.drop_last();
        lemma_entries_count(rest);
        lemma_entries_have_keys(rest);
        let key = entries.last().0;
        if entries_map(rest).contains_key(key) {
            let i = choose|i: int| 0 <= i < rest.len() && rest[i].0 == key;
            assert(entries[i].0 == entries[entries.len() - 1].0);
        }
        assert(entries_map(entries).dom() =~= entries_map(rest).dom().insert(key));
    }
}

} // verus!
