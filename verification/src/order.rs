//! Ordering the children of a category by size.

use crate::types::{any_downloadable, item_views, CategoryView, ItemView, LibraryItem};
use vstd::prelude::*;

verus! {

/// `sorted` with `item` placed behind every entry that is at least as large.
pub open spec fn insert_by_size(sorted: Seq<ItemView>, item: ItemView) -> Seq<ItemView>
    decreases sorted.len(),
{
    if sorted.len() > 0 && sorted.last().sort_key() < item.sort_key() {
        insert_by_size(sorted.drop_last(), item).push(sorted.last())
    } else {
        sorted.push(item)
    }
}

/// `items` from the largest to the smallest; entries of equal size keep the
/// order they came in.
pub open spec fn sorted_by_size(items: Seq<ItemView>) -> Seq<ItemView>
    decreases items.len(),
{
    if items.len() == 0 {
        Seq::empty()
    } else {
        insert_by_size(sorted_by_size(items.drop_last()), items.last())
    }
}

/// `items` with every entry but the first switched off.
pub open spec fn only_first_enabled(items: Seq<ItemView>) -> Seq<ItemView> {
    Seq::new(
        items.len(),
        |i: int|
            if i == 0 {
                items[i]
            } else {
                items[i].with_enabled(false)
            },
    )
}

impl CategoryView {
    /// The category that is built from a name, the entries handed in and the
    /// selection mode.
    pub open spec fn build(name: Seq<char>, items: Seq<ItemView>, single_selection: bool) -> CategoryView {
        let sorted = sorted_by_size(items);
        let kids = if single_selection {
            only_first_enabled(sorted)
        } else {
            sorted
        };
        CategoryView { name, items: kids, single_selection, enabled: any_downloadable(kids) }
    }
}

/// Inserting at `pos` is what [`insert_by_size`] does, when everything from
/// `pos` on is smaller than `item` and the entry before `pos` is not.
pub proof fn lemma_insert_position(sorted: Seq<ItemView>, item: ItemView, pos: int)
    requires
        0 <= pos <= sorted.len(),
        forall|j: int| pos <= j < sorted.len() ==> (#[trigger] sorted[j]).sort_key() < item.sort_key(),
        pos > 0 ==> sorted[pos - 1].sort_key() >= item.sort_key(),
    ensures
        insert_by_size(sorted, item) == sorted.insert(pos, item),
    decreases sorted.len() - pos,
{
    if pos == sorted.len() {
        assert(sorted.insert(pos, item) =~= sorted.push(item));
    } else {
        lemma_insert_position(sorted.drop_last(), item, pos);
        assert(sorted.drop_last().insert(pos, item).push(sorted.last()) =~= sorted.insert(
            pos,
            item,
        ));
    }
}

/// Where [`insert_by_size`] puts `item`: behind the last entry that is at
/// least as large.
pub open spec fn insert_place(sorted: Seq<ItemView>, item: ItemView) -> int
    decreases sorted.len(),
{
    if sorted.len() > 0 && sorted.last().sort_key() < item.sort_key() {
        insert_place(sorted.drop_last(), item)
    } else {
        sorted.len() as int
    }
}

/// [`insert_by_size`] inserts at [`insert_place`], which has only smaller
/// entries behind it and a larger or equal one before it.
pub proof fn lemma_insert_place(sorted: Seq<ItemView>, item: ItemView)
    ensures
        0 <= insert_place(sorted, item) <= sorted.len(),
        forall|j: int|
            insert_place(sorted, item) <= j < sorted.len() ==> (#[trigger] sorted[j]).sort_key()
                < item.sort_key(),
        insert_place(sorted, item) > 0 ==> sorted[insert_place(sorted, item) - 1].sort_key()
            >= item.sort_key(),
        insert_by_size(sorted, item) == sorted.insert(insert_place(sorted, item), item),
    decreases sorted.len(),
{
    if sorted.len() > 0 && sorted.last().sort_key() < item.sort_key() {
        lemma_insert_place(sorted.drop_last(), item);
        let at = insert_place(sorted.drop_last(), item);
        assert forall|j: int| at <= j < sorted.len() implies (#[trigger] sorted[j]).sort_key()
            < item.sort_key() by {
            if j < sorted.len() - 1 {
                assert(sorted.drop_last()[j] == sorted[j]);
            }
        }
        if at > 0 {
            assert(sorted.drop_last()[at - 1] == sorted[at - 1]);
        }
    }
    lemma_insert_position(sorted, item, insert_place(sorted, item));
}

/// No entry is behind a smaller one.
pub open spec fn is_descending(items: Seq<ItemView>) -> bool {
    forall|i: int, j: int|
        0 <= i < j < items.len() ==> (#[trigger] items[i]).sort_key() >= (
        #[trigger] items[j]).sort_key()
}

/// The entries of `items` whose size is `size`, in order.
pub open spec fn of_size(items: Seq<ItemView>, size: nat) -> Seq<ItemView>
    decreases items.len(),
{
    if items.len() == 0 {
        Seq::empty()
    } else if items.last().sort_key() == size {
        of_size(items.drop_last(), size).push(items.last())
    } else {
        of_size(items.drop_last(), size)
    }
}

/// Inserting behind an entry keeps the entries before it as they were.
proof fn lemma_of_size_insert(items: Seq<ItemView>, item: ItemView, at: int, size: nat)
    requires
        0 <= at <= items.len(),
        forall|j: int| at <= j < items.len() ==> (#[trigger] items[j]).sort_key() != item.sort_key(),
    ensures
        of_size(items.insert(at, item), size) == (if item.sort_key() == size {
            of_size(items, size).push(item)
        } else {
            of_size(items, size)
        }),
    decreases items.len() - at,
{
    let longer = items.insert(at, item);
    if at == items.len() {
        assert(longer.drop_last() =~= items);
    } else {
        assert(longer.drop_last() =~= items.drop_last().insert(at, item));
        assert(longer.last() == items.last());
        lemma_of_size_insert(items.drop_last(), item, at, size);
        if item.sort_key() == size {
            assert(items.last().sort_key() != size);
        }
    }
}

/// What [`sorted_by_size`] gives holds the entries it was given, each as
/// often as it was given, with no entry behind a smaller one and entries of
/// one size in the order they came in.
pub proof fn lemma_sorted_by_size(items: Seq<ItemView>)
    ensures
        sorted_by_size(items).len() == items.len(),
        sorted_by_size(items).to_multiset() == items.to_multiset(),
        is_descending(sorted_by_size(items)),
        forall|size: nat| #[trigger] of_size(sorted_by_size(items), size) == of_size(items, size),
    decreases items.len(),
{
    broadcast use {vstd::seq_lib::to_multiset_build, vstd::seq_lib::to_multiset_insert};

    if items.len() == 0 {
        assert(items =~= Seq::<ItemView>::empty());
    } else {
        let before = sorted_by_size(items.drop_last());
        let item = items.last();
        let at = insert_place(before, item);
        lemma_sorted_by_size(items.drop_last());
        lemma_insert_place(before, item);
        let after = before.insert(at, item);
        assert(items =~= items.drop_last().push(item));
        assert(after.to_multiset() == items.to_multiset());
        assert(is_descending(after)) by {
            assert forall|i: int, j: int| 0 <= i < j < after.len() implies (
            #[trigger] after[i]).sort_key() >= (#[trigger] after[j]).sort_key() by {
                if j < at {
                    assert(after[i] == before[i] && after[j] == before[j]);
                } else if j == at {
                    assert(after[i] == before[i]);
                    if i < at - 1 {
                        assert(before[i].sort_key() >= before[at - 1].sort_key());
                    }
                } else if i < at {
                    assert(after[i] == before[i] && after[j] == before[j - 1]);
                } else if i == at {
                    assert(after[j] == before[j - 1]);
                } else {
                    assert(after[i] == before[i - 1] && after[j] == before[j - 1]);
                }
            }
        }
        assert forall|size: nat| #[trigger] of_size(after, size) == of_size(items, size) by {
            lemma_of_size_insert(before, item, at, size);
            assert(of_size(before, size) == of_size(items.drop_last(), size));
        }
    }
}

/// Where `items` has entries of a size, it has one at some place.
proof fn lemma_of_size_member(items: Seq<ItemView>, size: nat)
    requires
        of_size(items, size).len() > 0,
    ensures
        exists|i: int| 0 <= i < items.len() && (#[trigger] items[i]).sort_key() == size,
    decreases items.len(),
{
    if items.last().sort_key() == size {
        assert(items[items.len() - 1].sort_key() == size);
    } else {
        lemma_of_size_member(items.drop_last(), size);
        let i = choose|i: int|
            0 <= i < items.drop_last().len() && (#[trigger] items.drop_last()[i]).sort_key()
                == size;
        assert(items[i].sort_key() == size);
    }
}

/// There is one way only to order entries from the largest to the smallest
/// with those of one size in a given order: two sequences with no entry
/// behind a smaller one, which hold the same entries of each size in the
/// same order, are the same.
pub proof fn lemma_order_is_unique(a: Seq<ItemView>, b: Seq<ItemView>)
    requires
        is_descending(a),
        is_descending(b),
        forall|size: nat| #[trigger] of_size(a, size) == of_size(b, size),
    ensures
        a == b,
    decreases a.len(),
{
    if a.len() == 0 || b.len() == 0 {
        if a.len() > 0 {
            let k = a.last().sort_key();
            assert(of_size(a, k).len() > 0);
            assert(of_size(b, k).len() == 0);
        }
        if b.len() > 0 {
            let k = b.last().sort_key();
            assert(of_size(b, k).len() > 0);
            assert(of_size(a, k).len() == 0);
        }
        assert(a =~= b);
    } else {
        let k = a.last().sort_key();
        let other = b.last().sort_key();
        assert(of_size(a, k).last() == a.last());
        assert(of_size(b, other).last() == b.last());
        if other != k {
            assert(of_size(a, other).len() > 0);
            lemma_of_size_member(a, other);
            let i = choose|i: int| 0 <= i < a.len() && (#[trigger] a[i]).sort_key() == other;
            assert(a[i].sort_key() >= a[a.len() - 1].sort_key());
            assert(of_size(b, k).len() > 0);
            lemma_of_size_member(b, k);
            let j = choose|j: int| 0 <= j < b.len() && (#[trigger] b[j]).sort_key() == k;
            assert(b[j].sort_key() >= b[b.len() - 1].sort_key());
        }
        assert(a.last() == b.last());
        let front = a.drop_last();
        let back = b.drop_last();
        assert forall|size: nat| #[trigger] of_size(front, size) == of_size(back, size) by {
            assert(of_size(a, size) == of_size(b, size));
            if size == k {
                assert(of_size(front, size) =~= of_size(a, size).drop_last());
                assert(of_size(back, size) =~= of_size(b, size).drop_last());
            }
        }
        assert(is_descending(front)) by {
            assert forall|i: int, j: int| 0 <= i < j < front.len() implies (
            #[trigger] front[i]).sort_key() >= (#[trigger] front[j]).sort_key() by {
                assert(front[i] == a[i] && front[j] == a[j]);
            }
        }
        assert(is_descending(back)) by {
            assert forall|i: int, j: int| 0 <= i < j < back.len() implies (
            #[trigger] back[i]).sort_key() >= (#[trigger] back[j]).sort_key() by {
                assert(back[i] == b[i] && back[j] == b[j]);
            }
        }
        lemma_order_is_unique(front, back);
        assert(a =~= front.push(a.last()));
        assert(b =~= back.push(b.last()));
    }
}

/// Sorts `items` from the largest to the smallest, keeping entries of equal
/// size in the order they came in.
pub fn sort_by_size(items: Vec<LibraryItem>) -> (sorted: Vec<LibraryItem>)
    requires
        items.len() >= 2 ==> forall|i: int|
            0 <= i < items.len() ==> (#[trigger] items@[i])@.sort_key() <= u64::MAX,
    ensures
        item_views(sorted@) == sorted_by_size(item_views(items@)),
        is_descending(item_views(sorted@)),
        forall|size: nat| #[trigger]
            of_size(item_views(sorted@), size) == of_size(item_views(items@), size),
{
    proof {
        lemma_sorted_by_size(item_views(items@));
    }
    if items.len() < 2 {
        proof {
            let v = item_views(items@);
            if v.len() == 1 {
                assert(v.drop_last() =~= Seq::<ItemView>::empty());
                assert(sorted_by_size(v.drop_last()) =~= Seq::<ItemView>::empty());
                assert(Seq::<ItemView>::empty().push(v.last()) =~= v);
            } else {
                assert(v =~= Seq::<ItemView>::empty());
            }
        }
        return items;
    }
    let ghost all = item_views(items@);
    let mut sorted: Vec<LibraryItem> = Vec::new();
    let mut keys: Vec<u64> = Vec::new();
    for item in it: items
        invariant
            it.seq() == items@,
            all == item_views(items@),
            forall|i: int| 0 <= i < items.len() ==> (#[trigger] items@[i])@.sort_key() <= u64::MAX,
            keys.len() == sorted.len(),
            forall|j: int|
                0 <= j < sorted.len() ==> keys@[j] == (#[trigger] sorted@[j])@.sort_key(),
            item_views(sorted@) == sorted_by_size(all.take(it.index() as int)),
    {
        let ghost n = it.index() as int;
        assert(item == items@[n]);
        let key = match &item {
            LibraryItem::Document(doc) => doc.size,
            LibraryItem::Category(cat) => cat.size(true),
        };
        let mut pos: usize = sorted.len();
        while pos > 0 && keys[pos - 1] < key
            invariant
                pos <= sorted.len(),
                keys.len() == sorted.len(),
                forall|j: int| pos <= j < keys.len() ==> keys@[j] < key,
            decreases pos,
        {
            pos -= 1;
        }
        proof {
            let before = item_views(sorted@);
            lemma_insert_position(before, item@, pos as int);
            assert(all.take(n + 1).drop_last() =~= all.take(n));
            assert(all.take(n + 1).last() == item@);
            assert(item_views(sorted@.insert(pos as int, item)) =~= before.insert(
                pos as int,
                item@,
            ));
        }
        sorted.insert(pos, item);
        keys.insert(pos, key);
    }
    assert(all.take(items.len() as int) =~= all);
    sorted
}

} // verus!
