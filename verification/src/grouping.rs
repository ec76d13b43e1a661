//! Collecting raw records under their category keys.

use crate::parsing::{record_view, record_views, RecordView};
use vstd::prelude::*;

verus! {

/// The keys of `records`, each once, in the order in which they first occur.
pub open spec fn distinct_keys(records: Seq<RecordView>) -> Seq<Seq<char>>
    decreases records.len(),
{
    if records.len() == 0 {
        Seq::empty()
    } else {
        let before = distinct_keys(records.drop_last());
        if before.contains(records.last().key) {
            before
        } else {
            before.push(records.last().key)
        }
    }
}

/// The records listed under `key`, in the order they came in.
pub open spec fn with_key(records: Seq<RecordView>, key: Seq<char>) -> Seq<RecordView>
    decreases records.len(),
{
    if records.len() == 0 {
        Seq::empty()
    } else {
        let before = with_key(records.drop_last(), key);
        if records.last().key == key {
            before.push(records.last())
        } else {
            before
        }
    }
}

/// One group for each key, in the order in which the keys first occur. A
/// group holds the records of its key in the order they came in.
pub open spec fn grouped(records: Seq<RecordView>) -> Seq<(Seq<char>, Seq<RecordView>)> {
    let keys = distinct_keys(records);
    Seq::new(keys.len(), |i: int| (keys[i], with_key(records, keys[i])))
}

pub open spec fn group_views(groups: Seq<(String, Vec<(String, u64, String, String)>)>) -> Seq<
    (Seq<char>, Seq<RecordView>),
> {
    Seq::new(groups.len(), |i: int| (groups[i].0@, record_views(groups[i].1@)))
}

/// Collects `items` into one group for each category key.
pub fn group_by_key(items: Vec<(String, u64, String, String)>) -> (groups: Vec<
    (String, Vec<(String, u64, String, String)>),
>)
    ensures
        group_views(groups@) == grouped(record_views(items@)),
{
    let ghost all = record_views(items@);
    let mut groups: Vec<(String, Vec<(String, u64, String, String)>)> = Vec::new();
    for entry in it: items
        invariant
            it.seq() == items@,
            all == record_views(items@),
            group_views(groups@) == grouped(all.take(it.index() as int)),
    {
        let ghost n = it.index() as int;
        let ghost seen = all.take(n);
        let ghost keys = distinct_keys(seen);
        assert(entry == items@[n]);
        assert(all.take(n + 1).drop_last() =~= seen);
        assert(all.take(n + 1).last() == record_view(entry));
        assert(group_views(groups@).len() == groups.len());
        assert(grouped(seen).len() == keys.len());
        let mut at: usize = 0;
        while at < groups.len() && groups[at].0 != entry.0
            invariant
                at <= groups.len(),
                groups.len() == keys.len(),
                group_views(groups@) == grouped(seen),
                keys == distinct_keys(seen),
                forall|j: int| 0 <= j < at ==> keys[j] != entry.0@,
            decreases groups.len() - at,
        {
            assert(group_views(groups@)[at as int].0 == keys[at as int]);
            at += 1;
        }
        let ghost before = groups@;
        if at < groups.len() {
            assert(group_views(before)[at as int].0 == keys[at as int]);
            assert(keys.contains(entry.0@));
            groups[at].1.push(entry);
            proof {
                assert forall|i: int| 0 <= i < keys.len() implies #[trigger] group_views(
                    groups@,
                )[i] == grouped(all.take(n + 1))[i] by {
                    assert(group_views(before)[i] == grouped(seen)[i]);
                    if i != at {
                        lemma_keys_distinct(seen, i, at as int);
                    }
                }
                assert(group_views(groups@) =~= grouped(all.take(n + 1)));
            }
        } else {
            assert(!keys.contains(entry.0@));
            let key = entry.0.clone();
            let mut members: Vec<(String, u64, String, String)> = Vec::new();
            members.push(entry);
            groups.push((key, members));
            proof {
                lemma_with_key_absent(seen, entry.0@);
                assert(record_views(members@) =~= seq![record_view(entry)]);
                assert forall|i: int| 0 <= i < keys.len() + 1 implies #[trigger] group_views(
                    groups@,
                )[i] == grouped(all.take(n + 1))[i] by {
                    if i < keys.len() {
                        assert(group_views(before)[i] == grouped(seen)[i]);
                        assert(keys.contains(keys[i]));
                    }
                }
                assert(group_views(groups@) =~= grouped(all.take(n + 1)));
            }
        }
    }
    assert(all.take(items.len() as int) =~= all);
    groups
}

/// No key is listed twice.
pub proof fn lemma_keys_distinct(records: Seq<RecordView>, i: int, j: int)
    requires
        0 <= i < distinct_keys(records).len(),
        0 <= j < distinct_keys(records).len(),
        i != j,
    ensures
        distinct_keys(records)[i] != distinct_keys(records)[j],
    decreases records.len(),
{
    if records.len() > 0 {
        let before = distinct_keys(records.drop_last());
        if i < before.len() && j < before.len() {
            lemma_keys_distinct(records.drop_last(), i, j);
        } else if i < before.len() {
            assert(before.contains(before[i]));
        } else if j < before.len() {
            assert(before.contains(before[j]));
        }
    }
}

/// A key that is not listed has no records.
pub proof fn lemma_with_key_absent(records: Seq<RecordView>, key: Seq<char>)
    requires
        !distinct_keys(records).contains(key),
    ensures
        with_key(records, key) == Seq::<RecordView>::empty(),
    decreases records.len(),
{
    if records.len() > 0 {
        let before = distinct_keys(records.drop_last());
        if before.contains(records.last().key) {
            lemma_with_key_absent(records.drop_last(), key);
        } else {
            assert(before.push(records.last().key).last() == records.last().key);
            assert forall|k: int| 0 <= k < before.len() implies before[k] != key by {
                assert(before.push(records.last().key)[k] == before[k]);
            }
            lemma_with_key_absent(records.drop_last(), key);
        }
    }
}

/// The records under a key all have that key, and every record is under
/// its key, which is listed.
pub proof fn lemma_with_key(records: Seq<RecordView>, key: Seq<char>)
    ensures
        forall|i: int|
            0 <= i < with_key(records, key).len() ==> (#[trigger] with_key(records, key)[i]).key
                == key,
        forall|i: int|
            0 <= i < records.len() && (#[trigger] records[i]).key == key ==> with_key(
                records,
                key,
            ).contains(records[i]) && distinct_keys(records).contains(key),
    decreases records.len(),
{
    if records.len() > 0 {
        let front = records.drop_last();
        lemma_with_key(front, key);
        let all = with_key(records, key);
        let keys = distinct_keys(records);
        assert forall|i: int| 0 <= i < records.len() && (#[trigger] records[i]).key
            == key implies all.contains(records[i]) && keys.contains(key) by {
            if i < records.len() - 1 {
                assert(front[i] == records[i]);
                let at = choose|at: int|
                    0 <= at < with_key(front, key).len() && with_key(front, key)[at] == records[i];
                assert(all[at] == records[i]);
                let k = choose|k: int|
                    0 <= k < distinct_keys(front).len() && distinct_keys(front)[k] == key;
                assert(keys[k] == key);
            } else {
                assert(all.last() == records[i]);
                if distinct_keys(front).contains(key) {
                    let k = choose|k: int|
                        0 <= k < distinct_keys(front).len() && distinct_keys(front)[k] == key;
                    assert(keys[k] == key);
                } else {
                    assert(keys.last() == key);
                }
            }
        }
    }
}

/// Every listed key is the key of some record, so no group is empty.
pub proof fn lemma_groups_not_empty(records: Seq<RecordView>, i: int)
    requires
        0 <= i < grouped(records).len(),
    ensures
        grouped(records)[i].1.len() > 0,
    decreases records.len(),
{
    let keys = distinct_keys(records);
    if records.len() > 0 {
        let front = records.drop_last();
        if i < distinct_keys(front).len() {
            lemma_groups_not_empty(front, i);
            assert(grouped(front)[i].1 == with_key(front, keys[i]));
        }
    }
}

} // verus!
