//! What holds of every catalog tree.

use crate::category::{first_named, has_named, is_first_named, is_named};
use crate::order::{lemma_sorted_by_size, only_first_enabled, sorted_by_size};
use crate::text::eq_ignoring_ascii_case;
use crate::types::{
    total_size, Capabilities, CategoryView, DocumentView, DownloadType, ItemView,
};
use vstd::prelude::*;

verus! {

/// Merging what is left of a merged category changes nothing. When a
/// category `b` is merged into a category `a` of the same name, its children
/// move into `a`. What is left of `b` has no children, and merging that as
/// well leaves `a` with the children it had after the first merge. The same
/// holds one level up, of a parent into which `b` has been merged.
pub proof fn lemma_merge_idempotent(parent: CategoryView, a: CategoryView, b: CategoryView)
    requires
        eq_ignoring_ascii_case(a.name, b.name),
    ensures
        ({
            let once = a.merged_all(b.items);
            let left = b.with_items(Seq::empty());
            &&& once.merged_all(left.items) == once
            &&& once.merged_all(left.items).items.to_multiset() == once.items.to_multiset()
        }),
        ({
            let once = parent.merged(ItemView::Category(b));
            let left = ItemView::Category(b.with_items(Seq::empty()));
            &&& once.merged(left) == once
            &&& once.merged(left).items.to_multiset() == once.items.to_multiset()
        }),
{
}

/// Adding a category without children leaves a category as it was.
pub proof fn lemma_empty_category_is_dropped(parent: CategoryView, item: ItemView)
    requires
        item is Category,
        item->Category_0.items.len() == 0,
    ensures
        parent.merged(item) == parent,
        parent.merged(item).items == parent.items,
{
}

/// The size of two runs of entries is the size of the one plus the size of
/// the other.
pub proof fn lemma_total_size_additive(a: Seq<ItemView>, b: Seq<ItemView>, enabled_only: bool)
    ensures
        total_size(a + b, enabled_only) == total_size(a, enabled_only) + total_size(
            b,
            enabled_only,
        ),
    decreases b.len(),
{
    if b.len() == 0 {
        assert(a + b =~= a);
    } else {
        assert((a + b).drop_last() =~= a + b.drop_last());
        assert((a + b).last() == b.last());
        lemma_total_size_additive(a, b.drop_last(), enabled_only);
    }
}

/// A category weighs what its children weigh together: nothing when it has
/// none, and with one child more, that child's size more.
pub proof fn lemma_size_is_sum_of_children(
    category: CategoryView,
    child: ItemView,
    enabled_only: bool,
)
    ensures
        ItemView::Category(category).size(enabled_only) == total_size(
            category.items,
            enabled_only,
        ),
        category.items.len() == 0 ==> category.size(enabled_only) == 0,
        category.with_items(category.items.push(child)).size(enabled_only) == category.size(
            enabled_only,
        ) + child.size(enabled_only),
{
    assert(category.items.push(child).drop_last() =~= category.items);
}

/// What is enabled never weighs more than everything.
pub proof fn lemma_enabled_size_at_most_full(item: ItemView)
    ensures
        item.size(true) <= item.size(false),
    decreases item,
{
    match item {
        ItemView::Document(_) => {},
        ItemView::Category(c) => {
            lemma_enabled_total_at_most_full(c.items);
        },
    }
}

/// What is enabled in a run of entries never weighs more than the run.
pub proof fn lemma_enabled_total_at_most_full(items: Seq<ItemView>)
    ensures
        total_size(items, true) <= total_size(items, false),
    decreases items,
{
    if items.len() > 0 {
        lemma_enabled_total_at_most_full(items.drop_last());
        lemma_enabled_size_at_most_full(items.last());
    }
}

/// In a single-selection category that has just been built, no child but
/// the first is enabled. The first is the largest child handed in (the
/// first of them, where several are as large), flag and all, and no child is
/// larger.
pub proof fn lemma_single_selection(name: Seq<char>, items: Seq<ItemView>)
    requires
        items.len() >= 1,
    ensures
        ({
            let built = CategoryView::build(name, items, true);
            &&& built.items.len() == items.len()
            &&& built.items[0] == sorted_by_size(items)[0]
            &&& forall|i: int| 0 < i < built.items.len() ==> !(#[trigger] built.items[i]).enabled()
            &&& forall|i: int|
                0 <= i < built.items.len() ==> built.items[0].sort_key() >= (
                #[trigger] built.items[i]).sort_key()
        }),
{
    lemma_sorted_by_size(items);
    let sorted = sorted_by_size(items);
    let built = CategoryView::build(name, items, true);
    assert(built.items == only_first_enabled(sorted));
    assert forall|i: int| 0 <= i < built.items.len() implies built.items[0].sort_key() >= (
    #[trigger] built.items[i]).sort_key() by {
        if i > 0 {
            assert(sorted[0].sort_key() >= sorted[i].sort_key());
            assert(built.items[i] == sorted[i].with_enabled(false));
        }
    }
}

/// A single-selection category that has just been built from two children
/// or more has exactly one enabled child, the first and largest, provided
/// that child was enabled when it was handed in. (Where it was not, no
/// child is enabled.)
pub proof fn lemma_exactly_one_enabled(name: Seq<char>, items: Seq<ItemView>)
    requires
        items.len() >= 2,
        sorted_by_size(items)[0].enabled(),
    ensures
        ({
            let built = CategoryView::build(name, items, true);
            &&& built.items.len() == items.len()
            &&& forall|i: int|
                0 <= i < built.items.len() ==> ((#[trigger] built.items[i]).enabled() <==> i == 0)
            &&& forall|i: int|
                0 <= i < built.items.len() ==> built.items[0].sort_key() >= (
                #[trigger] built.items[i]).sort_key()
        }),
{
    lemma_single_selection(name, items);
}

/// A document that needs rsync, built for a host that is Windows or has no
/// rsync, is switched off and cannot be fetched.
pub proof fn lemma_rsync_gated(name: Seq<char>, url: Seq<char>, size: u64, caps: Capabilities)
    requires
        caps.is_windows || !caps.has_rsync,
    ensures
        !DocumentView::build(name, url, size, DownloadType::Rsync, caps).enabled,
        !DocumentView::build(name, url, size, DownloadType::Rsync, caps).can_download(),
        !ItemView::Document(
            DocumentView::build(name, url, size, DownloadType::Rsync, caps),
        ).can_download(),
{
}

/// A document is switched on when it is built exactly when it can be
/// fetched, so no flag is on where nothing can be fetched.
pub proof fn lemma_document_well_formed(
    name: Seq<char>,
    url: Seq<char>,
    size: u64,
    download_type: DownloadType,
    caps: Capabilities,
)
    ensures
        ItemView::Document(DocumentView::build(name, url, size, download_type, caps)).well_formed(),
        DocumentView::build(name, url, size, download_type, caps).enabled == DocumentView::build(
            name,
            url,
            size,
            download_type,
            caps,
        ).can_download(),
{
}

/// Switching an entry on or off, as far as it can be fetched, keeps the
/// tree well formed.
pub proof fn lemma_set_enabled_well_formed(item: ItemView, enabled: bool)
    requires
        item.well_formed(),
    ensures
        item.with_enabled(enabled && item.can_download()).well_formed(),
        item.with_enabled(enabled && item.can_download()).can_download() == item.can_download(),
{
}

/// Adding an entry changes neither the name of a category nor its flags,
/// and takes no child away.
pub proof fn lemma_merged_frame(parent: CategoryView, item: ItemView)
    ensures
        parent.merged(item).name == parent.name,
        parent.merged(item).single_selection == parent.single_selection,
        parent.merged(item).enabled == parent.enabled,
        parent.items.len() <= parent.merged(item).items.len() <= parent.items.len() + 1,
    decreases item,
{
    match item {
        ItemView::Document(_) => {},
        ItemView::Category(c) => {
            if c.items.len() != 0 && has_named(parent.items, c.name) {
                let i = first_named(parent.items, c.name);
                assert(is_first_named(parent.items, c.name, i));
            }
        },
    }
}

/// Adding entries one after another changes neither the name of a category
/// nor its flags, and takes no child away.
pub proof fn lemma_merged_all_frame(parent: CategoryView, items: Seq<ItemView>)
    ensures
        parent.merged_all(items).name == parent.name,
        parent.merged_all(items).single_selection == parent.single_selection,
        parent.merged_all(items).enabled == parent.enabled,
        parent.items.len() <= parent.merged_all(items).items.len() <= parent.items.len()
            + items.len(),
    decreases items.len(),
{
    if items.len() > 0 {
        lemma_merged_all_frame(parent, items.drop_last());
        lemma_merged_frame(parent.merged_all(items.drop_last()), items.last());
    }
}

/// No two categories in `items` go by the same name, the case of ASCII
/// letters aside.
pub open spec fn names_differ(items: Seq<ItemView>) -> bool {
    forall|i: int, j: int|
        0 <= i < items.len() && 0 <= j < items.len() && i != j && (#[trigger] items[i]) is Category
            ==> !is_named(#[trigger] items[j], items[i]->Category_0.name)
}

/// Merging never puts a second category of one name beside the first: where
/// the child categories of a parent differ in name, they still do after an
/// entry has been added.
pub proof fn lemma_merge_never_duplicates(parent: CategoryView, item: ItemView)
    requires
        names_differ(parent.items),
    ensures
        names_differ(parent.merged(item).items),
{
    let after = parent.merged(item).items;
    match item {
        ItemView::Document(_) => {
            assert forall|i: int, j: int|
                0 <= i < after.len() && 0 <= j < after.len() && i != j && (
                #[trigger] after[i]) is Category implies !is_named(
                #[trigger] after[j],
                after[i]->Category_0.name,
            ) by {
                if j < parent.items.len() {
                    assert(after[i] == parent.items[i] && after[j] == parent.items[j]);
                }
            }
        },
        ItemView::Category(c) => {
            if c.items.len() == 0 {
            } else if has_named(parent.items, c.name) {
                let k = first_named(parent.items, c.name);
                assert(is_first_named(parent.items, c.name, k));
                let target = parent.items[k]->Category_0;
                lemma_merged_all_frame(target, c.items);
                assert forall|i: int, j: int|
                    0 <= i < after.len() && 0 <= j < after.len() && i != j && (
                    #[trigger] after[i]) is Category implies !is_named(
                    #[trigger] after[j],
                    after[i]->Category_0.name,
                ) by {
                    assert(parent.items[i] is Category);
                    assert(after[i]->Category_0.name == parent.items[i]->Category_0.name);
                    assert(!is_named(parent.items[j], parent.items[i]->Category_0.name));
                    assert(after[j] is Category ==> parent.items[j] is Category
                        && after[j]->Category_0.name == parent.items[j]->Category_0.name);
                }
            } else {
                assert forall|i: int, j: int|
                    0 <= i < after.len() && 0 <= j < after.len() && i != j && (
                    #[trigger] after[i]) is Category implies !is_named(
                    #[trigger] after[j],
                    after[i]->Category_0.name,
                ) by {
                    if i < parent.items.len() && j < parent.items.len() {
                        assert(after[i] == parent.items[i] && after[j] == parent.items[j]);
                    } else if i < parent.items.len() {
                        assert(after[i] == parent.items[i]);
                        if is_named(parent.items[i], c.name) {
                            lemma_some_is_first(parent.items, c.name, i);
                        }
                        lemma_same_name_symmetric(after[i]->Category_0.name, c.name);
                    } else {
                        assert(after[j] == parent.items[j]);
                        if is_named(parent.items[j], c.name) {
                            lemma_some_is_first(parent.items, c.name, j);
                        }
                    }
                }
            }
        },
    }
}

/// Where some category goes by a name, a first one does.
pub proof fn lemma_some_is_first(items: Seq<ItemView>, name: Seq<char>, i: int)
    requires
        0 <= i < items.len(),
        is_named(items[i], name),
    ensures
        has_named(items, name),
        0 <= first_named(items, name) <= i,
    decreases i,
{
    if exists|j: int| 0 <= j < i && is_named(items[j], name) {
        let j = choose|j: int| 0 <= j < i && is_named(items[j], name);
        lemma_some_is_first(items, name, j);
    } else {
        assert(is_first_named(items, name, i));
        crate::category::lemma_first_named_unique(items, name, i);
    }
}

/// Two names that match, the case of ASCII letters aside, match either way
/// round.
pub proof fn lemma_same_name_symmetric(a: Seq<char>, b: Seq<char>)
    ensures
        eq_ignoring_ascii_case(a, b) == eq_ignoring_ascii_case(b, a),
{
    if eq_ignoring_ascii_case(a, b) {
        assert forall|i: int| 0 <= i < b.len() implies crate::text::ascii_lower(#[trigger] b[i])
            == crate::text::ascii_lower(a[i]) by {
            assert(crate::text::ascii_lower(a[i]) == crate::text::ascii_lower(b[i]));
        }
    }
    if eq_ignoring_ascii_case(b, a) {
        assert forall|i: int| 0 <= i < a.len() implies crate::text::ascii_lower(#[trigger] a[i])
            == crate::text::ascii_lower(b[i]) by {
            assert(crate::text::ascii_lower(b[i]) == crate::text::ascii_lower(a[i]));
        }
    }
}

/// Adding a well-formed entry to a well-formed category leaves it well
/// formed, and a category that could be fetched still can.
pub proof fn lemma_merged_well_formed(parent: CategoryView, item: ItemView)
    requires
        ItemView::Category(parent).well_formed(),
        item.well_formed(),
    ensures
        ItemView::Category(parent.merged(item)).well_formed(),
        parent.can_download() ==> parent.merged(item).can_download(),
    decreases item,
{
    let after = parent.merged(item).items;
    lemma_merged_frame(parent, item);
    match item {
        ItemView::Document(_) => {
            assert forall|i: int| 0 <= i < after.len() implies (#[trigger] after[i]).well_formed() by {
                if i < parent.items.len() {
                    assert(after[i] == parent.items[i]);
                }
            }
            if parent.can_download() {
                let w = choose|w: int|
                    0 <= w < parent.items.len() && (#[trigger] parent.items[w]).can_download();
                assert(after[w].can_download());
            }
        },
        ItemView::Category(c) => {
            if c.items.len() == 0 {
            } else if has_named(parent.items, c.name) {
                let k = first_named(parent.items, c.name);
                assert(is_first_named(parent.items, c.name, k));
                let target = parent.items[k]->Category_0;
                assert(parent.items[k].well_formed());
                lemma_merged_all_well_formed(target, c.items);
                assert forall|i: int| 0 <= i < after.len() implies (
                #[trigger] after[i]).well_formed() by {
                    if i != k {
                        assert(after[i] == parent.items[i]);
                    }
                }
                if parent.can_download() {
                    let w = choose|w: int|
                        0 <= w < parent.items.len() && (#[trigger] parent.items[w]).can_download();
                    assert(after[w].can_download());
                }
            } else {
                assert forall|i: int| 0 <= i < after.len() implies (
                #[trigger] after[i]).well_formed() by {
                    if i < parent.items.len() {
                        assert(after[i] == parent.items[i]);
                    }
                }
                if parent.can_download() {
                    let w = choose|w: int|
                        0 <= w < parent.items.len() && (#[trigger] parent.items[w]).can_download();
                    assert(after[w].can_download());
                }
            }
        },
    }
}

/// Adding well-formed entries one after another to a well-formed category
/// leaves it well formed, and a category that could be fetched still can.
pub proof fn lemma_merged_all_well_formed(parent: CategoryView, items: Seq<ItemView>)
    requires
        ItemView::Category(parent).well_formed(),
        forall|i: int| 0 <= i < items.len() ==> (#[trigger] items[i]).well_formed(),
    ensures
        ItemView::Category(parent.merged_all(items)).well_formed(),
        parent.can_download() ==> parent.merged_all(items).can_download(),
    decreases items,
{
    if items.len() > 0 {
        assert forall|i: int| 0 <= i < items.drop_last().len() implies (
        #[trigger] items.drop_last()[i]).well_formed() by {
            assert(items.drop_last()[i] == items[i]);
        }
        lemma_merged_all_well_formed(parent, items.drop_last());
        lemma_merged_well_formed(parent.merged_all(items.drop_last()), items.last());
    }
}

/// A category built from well-formed entries is well formed, and it starts
/// enabled exactly when it can be fetched.
pub proof fn lemma_build_well_formed(name: Seq<char>, items: Seq<ItemView>, single_selection: bool)
    requires
        forall|i: int| 0 <= i < items.len() ==> (#[trigger] items[i]).well_formed(),
    ensures
        ItemView::Category(CategoryView::build(name, items, single_selection)).well_formed(),
        CategoryView::build(name, items, single_selection).enabled == CategoryView::build(
            name,
            items,
            single_selection,
        ).can_download(),
        CategoryView::build(name, items, single_selection).items.len() == items.len(),
{
    lemma_sorted_by_size(items);
    let sorted = sorted_by_size(items);
    let built = CategoryView::build(name, items, single_selection);
    assert forall|i: int| 0 <= i < built.items.len() implies (
    #[trigger] built.items[i]).well_formed() by {
        assert(sorted.contains(sorted[i]));
        vstd::seq_lib::to_multiset_contains(sorted, sorted[i]);
        vstd::seq_lib::to_multiset_contains(items, sorted[i]);
        assert(items.contains(sorted[i]));
        let j = choose|j: int| 0 <= j < items.len() && items[j] == sorted[i];
        assert(items[j].well_formed());
        if single_selection {
            assert(built.items[i] == (if i == 0 {
                sorted[i]
            } else {
                sorted[i].with_enabled(false)
            }));
        }
    }
}

/// Every category in `items` has children and goes by a name that no
/// category of `existing`, and none before it in `items`, goes by.
pub open spec fn are_new(existing: Seq<ItemView>, items: Seq<ItemView>) -> bool {
    forall|j: int|
        0 <= j < items.len() && (#[trigger] items[j]) is Category ==> {
            &&& items[j]->Category_0.items.len() > 0
            &&& !has_named(existing + items.take(j), items[j]->Category_0.name)
        }
}

/// Merging entries that meet nothing of their name appends them, so the
/// category then holds what it held and what came, each as often as it was
/// there.
pub proof fn lemma_merge_of_new(parent: CategoryView, items: Seq<ItemView>)
    requires
        are_new(parent.items, items),
    ensures
        parent.merged_all(items).items == parent.items + items,
        parent.merged_all(items).items.to_multiset() == parent.items.to_multiset().add(
            items.to_multiset(),
        ),
    decreases items.len(),
{
    if items.len() == 0 {
        assert(parent.items + items =~= parent.items);
    } else {
        let front = items.drop_last();
        let n = items.len() - 1;
        assert forall|j: int| 0 <= j < front.len() && (#[trigger] front[j]) is Category implies {
            &&& front[j]->Category_0.items.len() > 0
            &&& !has_named(parent.items + front.take(j), front[j]->Category_0.name)
        } by {
            assert(front[j] == items[j]);
            assert(front.take(j) =~= items.take(j));
        }
        lemma_merge_of_new(parent, front);
        let before = parent.merged_all(front);
        assert(before.items == parent.items + front);
        assert(items.take(n) =~= front);
        assert(items[n] == items.last());
        if items[n] is Category {
            assert(!has_named(before.items, items[n]->Category_0.name));
        }
        assert(before.merged(items.last()).items == before.items.push(items.last()));
        assert((parent.items + front).push(items.last()) =~= parent.items + items);
    }
    vstd::seq_lib::lemma_multiset_commutative(parent.items, items);
}

/// Two names that each match a third, the case of ASCII letters aside,
/// match each other.
pub proof fn lemma_same_name_transitive(a: Seq<char>, b: Seq<char>, c: Seq<char>)
    requires
        eq_ignoring_ascii_case(a, b),
        eq_ignoring_ascii_case(b, c),
    ensures
        eq_ignoring_ascii_case(a, c),
{
    assert forall|i: int| 0 <= i < a.len() implies crate::text::ascii_lower(#[trigger] a[i])
        == crate::text::ascii_lower(c[i]) by {
        assert(crate::text::ascii_lower(a[i]) == crate::text::ascii_lower(b[i]));
        assert(crate::text::ascii_lower(b[i]) == crate::text::ascii_lower(c[i]));
    }
}

/// Two categories of one name become one. Let `a` have children and be new
/// to `parent`, let `b` go by the name of `a`, the case of ASCII letters
/// aside, and let the children of `b` meet nothing of their name in `a`.
/// Then adding `a` and `b` to `parent` appends one category: `a`, with the
/// children of `a` followed by those of `b`. Adding what is left of `b`
/// once more changes nothing.
pub proof fn lemma_merge_same_name(parent: CategoryView, a: CategoryView, b: CategoryView)
    requires
        eq_ignoring_ascii_case(a.name, b.name),
        a.items.len() > 0,
        !has_named(parent.items, a.name),
        are_new(a.items, b.items),
    ensures
        ({
            let both = parent.merged(ItemView::Category(a)).merged(ItemView::Category(b));
            let left = ItemView::Category(b.with_items(Seq::empty()));
            &&& both.items == parent.items.push(
                ItemView::Category(a.with_items(a.items + b.items)),
            )
            &&& (a.items + b.items).to_multiset() == a.items.to_multiset().add(
                b.items.to_multiset(),
            )
            &&& both.merged(left) == both
        }),
{
    let first = parent.merged(ItemView::Category(a));
    let n = parent.items.len() as int;
    assert(first.items == parent.items.push(ItemView::Category(a)));
    vstd::seq_lib::lemma_multiset_commutative(a.items, b.items);
    if b.items.len() == 0 {
        assert(a.items + b.items =~= a.items);
    } else {
        assert(is_named(first.items[n], b.name));
        assert forall|j: int| 0 <= j < n implies !is_named(#[trigger] first.items[j], b.name) by {
            if is_named(first.items[j], b.name) {
                let other = parent.items[j]->Category_0.name;
                lemma_same_name_symmetric(a.name, b.name);
                lemma_same_name_transitive(other, b.name, a.name);
                lemma_some_is_first(parent.items, a.name, j);
            }
        }
        assert(is_first_named(first.items, b.name, n));
        crate::category::lemma_first_named_unique(first.items, b.name, n);
        lemma_merge_of_new(a, b.items);
        lemma_merged_all_frame(a, b.items);
        assert(a.merged_all(b.items) == a.with_items(a.items + b.items));
        assert(first.merged(ItemView::Category(b)).items =~= parent.items.push(
            ItemView::Category(a.with_items(a.items + b.items)),
        ));
    }
}

} // verus!
