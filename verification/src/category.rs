//! Building a category and merging entries into it.

use crate::order::sort_by_size;
use crate::text::{eq_ignore_ascii_case, eq_ignoring_ascii_case};
use crate::types::{item_views, lemma_view_items, Category, CategoryView, ItemView, LibraryItem};
use vstd::prelude::*;

verus! {

/// `item` is a category whose name is `name`, the case of ASCII letters aside.
pub open spec fn is_named(item: ItemView, name: Seq<char>) -> bool {
    item matches ItemView::Category(c) && eq_ignoring_ascii_case(c.name, name)
}

/// `i` is the place of the first category in `items` that goes by `name`.
pub open spec fn is_first_named(items: Seq<ItemView>, name: Seq<char>, i: int) -> bool {
    &&& 0 <= i < items.len()
    &&& is_named(items[i], name)
    &&& forall|j: int| 0 <= j < i ==> !is_named(#[trigger] items[j], name)
}

/// Some category in `items` goes by `name`.
pub open spec fn has_named(items: Seq<ItemView>, name: Seq<char>) -> bool {
    exists|i: int| is_first_named(items, name, i)
}

/// The place of the first category in `items` that goes by `name`.
pub open spec fn first_named(items: Seq<ItemView>, name: Seq<char>) -> int {
    choose|i: int| is_first_named(items, name, i)
}

impl CategoryView {
    /// The category after `item` has been added to it. A document is
    /// appended. A category without children changes nothing. Any other
    /// category is poured, child by child, into the first child category
    /// of the same name, and appended whole where there is none.
    pub open spec fn merged(self, item: ItemView) -> CategoryView
        decreases item,
    {
        match item {
            ItemView::Document(_) => self.with_items(self.items.push(item)),
            ItemView::Category(c) => if c.items.len() == 0 {
                self
            } else if has_named(self.items, c.name) {
                let i = first_named(self.items, c.name);
                let target = self.items[i]->Category_0;
                self.with_items(
                    self.items.update(i, ItemView::Category(target.merged_all(c.items))),
                )
            } else {
                self.with_items(self.items.push(item))
            },
        }
    }

    /// The category after the entries of `items` have been added one after
    /// another, the first of them first.
    pub open spec fn merged_all(self, items: Seq<ItemView>) -> CategoryView
        decreases items,
    {
        if items.len() == 0 {
            self
        } else {
            self.merged_all(items.drop_last()).merged(items.last())
        }
    }
}

/// At most one place is that of the first category of a name.
pub proof fn lemma_first_named_unique(items: Seq<ItemView>, name: Seq<char>, i: int)
    requires
        is_first_named(items, name, i),
    ensures
        has_named(items, name),
        first_named(items, name) == i,
{
    let k = first_named(items, name);
    assert(is_first_named(items, name, k));
    if k < i {
        assert(!is_named(items[k], name));
    } else if i < k {
        assert(!is_named(items[i], name));
    }
}

impl Category {
    /// Builds a category. The children are ordered from the largest to the
    /// smallest, those of equal size as they came. In a single-selection
    /// category all but the first are then switched off. The category starts
    /// enabled exactly when one of its children can be fetched.
    pub fn new(name: String, items: Vec<LibraryItem>, single_selection: bool) -> (cat: Self)
        requires
            items.len() >= 2 ==> forall|i: int|
                0 <= i < items.len() ==> (#[trigger] items@[i])@.sort_key() <= u64::MAX,
        ensures
            cat@ == CategoryView::build(name@, item_views(items@), single_selection),
            cat.name == name,
    {
        let ghost given = item_views(items@);
        let mut kids = sort_by_size(items);
        let ghost sorted = item_views(kids@);
        if single_selection {
            let mut i: usize = 1;
            while i < kids.len()
                invariant
                    1 <= i,
                    kids.len() == sorted.len(),
                    forall|j: int|
                        0 <= j < kids.len() ==> (#[trigger] kids@[j])@ == (if 0 < j < i {
                            sorted[j].with_enabled(false)
                        } else {
                            sorted[j]
                        }),
                decreases kids.len() - i,
            {
                kids[i].set_enabled(false);
                i += 1;
            }
        }
        let mut cat = Category { name, items: kids, single_selection, enabled: false };
        let enabled = cat.can_download();
        cat.enabled = enabled;
        proof {
            lemma_view_items(&cat);
            assert(cat@.items =~= CategoryView::build(name@, given, single_selection).items);
        }
        cat
    }

    /// Builds a category as [`Category::new`] does, or nothing where there
    /// are two children or more and the size of one, by which they would be
    /// ordered, is more than a `u64` holds.
    pub fn checked_new(name: String, items: Vec<LibraryItem>, single_selection: bool) -> (cat:
        Option<Self>)
        ensures
            match cat {
                Some(c) => c@ == CategoryView::build(name@, item_views(items@), single_selection)
                    && c.name == name,
                None => items.len() >= 2 && exists|i: int|
                    0 <= i < items.len() && (#[trigger] items@[i])@.sort_key() > u64::MAX,
            },
    {
        if items.len() >= 2 {
            let mut i: usize = 0;
            while i < items.len()
                invariant
                    i <= items.len(),
                    items.len() >= 2,
                    forall|j: int| 0 <= j < i ==> (#[trigger] items@[j])@.sort_key() <= u64::MAX,
                decreases items.len() - i,
            {
                match &items[i] {
                    LibraryItem::Document(_) => {},
                    LibraryItem::Category(child) => {
                        if child.checked_size(true).is_none() {
                            return None;
                        }
                    },
                }
                i += 1;
            }
        }
        Some(Category::new(name, items, single_selection))
    }

    /// The place of the first child category that goes by `name`, if any.
    fn find_named(&self, name: &str) -> (found: Option<usize>)
        ensures
            match found {
                Some(i) => is_first_named(self@.items, name@, i as int),
                None => !has_named(self@.items, name@),
            },
    {
        proof {
            lemma_view_items(self);
        }
        let mut i: usize = 0;
        while i < self.items.len()
            invariant
                i <= self.items.len(),
                self@.items.len() == self.items@.len(),
                forall|j: int|
                    0 <= j < self.items@.len() ==> #[trigger] self@.items[j] == self.items@[j]@,
                forall|j: int| 0 <= j < i ==> !is_named(#[trigger] self@.items[j], name@),
            decreases self.items.len() - i,
        {
            match &self.items[i] {
                LibraryItem::Document(_) => {},
                LibraryItem::Category(cat) => {
                    if eq_ignore_ascii_case(cat.name.as_str(), name) {
                        return Some(i);
                    }
                },
            }
            i += 1;
        }
        None
    }

    /// Adds `item`. A document is appended. A category without children is
    /// dropped. Any other category is merged into the first child category of
    /// the same name (the case of ASCII letters aside), and appended where
    /// there is none. Neither the order of the children nor any flag is
    /// revised.
    pub fn add(&mut self, item: LibraryItem)
        ensures
            final(self)@ == old(self)@.merged(item@),
            item@ is Category && item@->Category_0.items.len() == 0 ==> final(self)@ == old(
                self,
            )@,
        decreases item,
    {
        proof {
            lemma_view_items(self);
        }
        match item {
            LibraryItem::Document(doc) => {
                self.items.push(LibraryItem::Document(doc));
                proof {
                    lemma_view_items(self);
                    assert(self@.items =~= old(self)@.items.push(item@));
                }
            },
            LibraryItem::Category(category) => {
                proof {
                    lemma_view_items(&category);
                }
                if category.items.is_empty() {
                    return ;
                }
                match self.find_named(category.name.as_str()) {
                    Some(i) => {
                        proof {
                            lemma_first_named_unique(old(self)@.items, category.name@, i as int);
                        }
                        match &mut self.items[i] {
                            LibraryItem::Category(target) => {
                                target.add_all(category.items);
                            },
                            LibraryItem::Document(_) => {},
                        }
                        proof {
                            lemma_view_items(self);
                            assert(self@.items =~= old(self)@.merged(item@).items);
                        }
                    },
                    None => {
                        self.items.push(LibraryItem::Category(category));
                        proof {
                            lemma_view_items(self);
                            assert(self@.items =~= old(self)@.items.push(item@));
                        }
                    },
                }
            },
        }
    }

    /// Adds the entries of `items` one after another, the first of them first.
    pub fn add_all(&mut self, items: Vec<LibraryItem>)
        ensures
            final(self)@ == old(self)@.merged_all(item_views(items@)),
        decreases items,
    {
        let ghost all = item_views(items@);
        for item in it: items
            invariant
                it.seq() == items@,
                all == item_views(items@),
                self@ == old(self)@.merged_all(all.take(it.index() as int)),
        {
            let ghost n = it.index() as int;
            assert(item == items@[n]);
            assert(all.take(n + 1).drop_last() =~= all.take(n));
            assert(all.take(n + 1).last() == item@);
            self.add(item);
        }
        assert(all.take(items.len() as int) =~= all);
    }
}

} // verus!
