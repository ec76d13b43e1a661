use kiwix_catalog::types::{Capabilities, Category, Document, DownloadType, LibraryItem};

fn linux_with_rsync() -> Capabilities {
    Capabilities::new(false, true)
}

fn doc(name: &str, size: u64) -> LibraryItem {
    LibraryItem::Document(Document::new(
        name.to_string(),
        format!("https://example.org/{name}"),
        size,
        DownloadType::Http,
        &linux_with_rsync(),
    ))
}

fn rsync_doc(name: &str, size: u64, caps: &Capabilities) -> LibraryItem {
    LibraryItem::Document(Document::new(
        name.to_string(),
        format!("rsync://example.org/{name}"),
        size,
        DownloadType::Rsync,
        caps,
    ))
}

fn group(name: &str, items: Vec<LibraryItem>, single: bool) -> LibraryItem {
    LibraryItem::Category(Category::new(name.to_string(), items, single))
}

fn name_of(item: &LibraryItem) -> &str {
    match item {
        LibraryItem::Document(d) => &d.name,
        LibraryItem::Category(c) => &c.name,
    }
}

fn enabled_of(item: &LibraryItem) -> bool {
    match item {
        LibraryItem::Document(d) => d.enabled,
        LibraryItem::Category(c) => c.enabled,
    }
}

fn names(cat: &Category) -> Vec<String> {
    cat.items.iter().map(|i| name_of(i).to_string()).collect()
}

fn as_category(item: &LibraryItem) -> &Category {
    match item {
        LibraryItem::Category(c) => c,
        LibraryItem::Document(d) => panic!("{} is a document", d.name),
    }
}

#[test]
fn document_starts_enabled_when_it_can_be_fetched() {
    let d = Document::new(
        "a".to_string(),
        "u".to_string(),
        7,
        DownloadType::Http,
        &Capabilities::new(true, false),
    );
    assert!(d.enabled);
    assert!(d.can_download());
    assert_eq!(d.size, 7);
    assert_eq!(d.name, "a");
    assert_eq!(d.url, "u");
    assert_eq!(d.download_type, DownloadType::Http);
}

#[test]
fn either_transport_is_always_fetchable() {
    let d = Document::new(
        "a".to_string(),
        "u".to_string(),
        7,
        DownloadType::Either,
        &Capabilities::new(true, false),
    );
    assert!(d.enabled);
    assert!(d.can_download());
}

#[test]
fn rsync_document_on_windows_is_gated() {
    let caps = Capabilities::new(true, true);
    let mut item = rsync_doc("mirror", 10, &caps);
    assert!(!enabled_of(&item));
    assert!(!item.can_download());
    assert!(!item.set_enabled(true));
    assert!(!enabled_of(&item));
    assert_eq!(item.size(true), 0);
    assert_eq!(item.size(false), 10);
}

#[test]
fn rsync_document_without_client_is_gated() {
    let caps = Capabilities::new(false, false);
    let item = rsync_doc("mirror", 10, &caps);
    assert!(!enabled_of(&item));
    assert!(!item.can_download());
}

#[test]
fn rsync_document_with_client_is_enabled() {
    let caps = Capabilities::new(false, true);
    let item = rsync_doc("mirror", 10, &caps);
    assert!(enabled_of(&item));
    assert!(item.can_download());
    assert!(caps.permits(DownloadType::Rsync));
    assert!(!Capabilities::new(true, true).permits(DownloadType::Rsync));
    assert!(Capabilities::new(true, false).permits(DownloadType::Http));
}

#[test]
fn set_enabled_toggles_a_fetchable_document() {
    let mut item = doc("a", 5);
    assert!(!item.set_enabled(false));
    assert!(!enabled_of(&item));
    assert_eq!(item.size(true), 0);
    assert_eq!(item.size(false), 5);
    assert!(item.set_enabled(true));
    assert!(enabled_of(&item));
    assert_eq!(item.size(true), 5);
}

#[test]
fn set_enabled_on_a_category_leaves_children_alone() {
    let mut item = group("g", vec![doc("a", 5), doc("b", 3)], false);
    assert!(!item.set_enabled(false));
    assert!(!enabled_of(&item));
    let cat = as_category(&item);
    assert!(cat.items.iter().all(enabled_of));
    assert_eq!(item.size(true), 8);
}

#[test]
fn category_without_fetchable_child_cannot_be_enabled() {
    let caps = Capabilities::new(true, false);
    let mut item = group("g", vec![rsync_doc("a", 5, &caps)], false);
    assert!(!enabled_of(&item));
    assert!(!item.can_download());
    assert!(!item.set_enabled(true));
    assert!(!enabled_of(&item));
}

#[test]
fn children_are_sorted_by_size_largest_first() {
    let cat = Category::new(
        "g".to_string(),
        vec![doc("small", 1), doc("large", 30), doc("middle", 20)],
        false,
    );
    assert_eq!(names(&cat), vec!["large", "middle", "small"]);
    assert!(cat.enabled);
    assert!(!cat.single_selection);
}

#[test]
fn equal_sizes_keep_their_order() {
    let cat = Category::new(
        "g".to_string(),
        vec![doc("a", 5), doc("b", 9), doc("c", 5), doc("d", 9), doc("e", 5)],
        false,
    );
    assert_eq!(names(&cat), vec!["b", "d", "a", "c", "e"]);
}

#[test]
fn a_category_child_is_ordered_by_its_enabled_size() {
    let mut inner = group("inner", vec![doc("x", 100), doc("y", 50)], true);
    assert_eq!(inner.size(true), 100);
    assert_eq!(inner.size(false), 150);
    inner.set_enabled(true);
    let cat = Category::new("g".to_string(), vec![doc("a", 120), inner, doc("b", 90)], false);
    assert_eq!(names(&cat), vec!["a", "inner", "b"]);
    assert_eq!(cat.size(false), 360);
    assert_eq!(cat.size(true), 310);
}

#[test]
fn single_selection_enables_only_the_largest() {
    let cat = Category::new(
        "g".to_string(),
        vec![doc("small", 1), doc("large", 30), doc("middle", 20)],
        true,
    );
    assert_eq!(names(&cat), vec!["large", "middle", "small"]);
    let flags: Vec<bool> = cat.items.iter().map(enabled_of).collect();
    assert_eq!(flags, vec![true, false, false]);
    assert_eq!(cat.size(true), 30);
    assert_eq!(cat.size(false), 51);
    assert!(cat.single_selection);
    assert!(cat.enabled);
}

#[test]
fn single_selection_with_a_gated_first_child_enables_none() {
    let caps = Capabilities::new(true, true);
    let cat = Category::new(
        "g".to_string(),
        vec![rsync_doc("a", 9, &caps), rsync_doc("b", 4, &caps)],
        true,
    );
    let flags: Vec<bool> = cat.items.iter().map(enabled_of).collect();
    assert_eq!(flags, vec![false, false]);
    assert!(!cat.enabled);
    assert!(!cat.can_download());
}

#[test]
fn empty_category_is_disabled_and_weighs_nothing() {
    let cat = Category::new("g".to_string(), vec![], false);
    assert!(cat.items.is_empty());
    assert!(!cat.enabled);
    assert!(!cat.can_download());
    assert_eq!(cat.size(false), 0);
    assert_eq!(cat.size(true), 0);
}

#[test]
fn size_is_the_sum_of_the_children() {
    let mut a = doc("a", 7);
    a.set_enabled(false);
    let inner = group("inner", vec![doc("x", 100), doc("y", 50)], false);
    let cat = Category::new("g".to_string(), vec![a, inner, doc("b", 3)], false);
    let full: u64 = cat.items.iter().map(|i| i.size(false)).sum();
    let on: u64 = cat.items.iter().map(|i| i.size(true)).sum();
    assert_eq!(cat.size(false), full);
    assert_eq!(cat.size(false), 160);
    assert_eq!(cat.size(true), on);
    assert_eq!(cat.size(true), 153);
    assert!(cat.size(true) <= cat.size(false));
}

#[test]
fn add_appends_documents_without_looking_at_names() {
    let mut cat = Category::new("g".to_string(), vec![doc("a", 5)], false);
    cat.add(doc("a", 5));
    cat.add(doc("z", 50));
    assert_eq!(names(&cat), vec!["a", "a", "z"]);
}

#[test]
fn add_drops_a_category_without_children() {
    let mut cat = Category::new("g".to_string(), vec![doc("a", 5)], false);
    cat.add(group("empty", vec![], false));
    cat.add(group("g", vec![], true));
    assert_eq!(names(&cat), vec!["a"]);
}

#[test]
fn add_appends_a_category_of_a_new_name() {
    let mut cat = Category::new("g".to_string(), vec![doc("a", 5)], false);
    cat.add(group("sub", vec![doc("x", 100)], false));
    assert_eq!(names(&cat), vec!["a", "sub"]);
    assert_eq!(names(as_category(&cat.items[1])), vec!["x"]);
}

#[test]
fn add_merges_categories_whose_names_differ_in_case_only() {
    let mut cat = Category::new("g".to_string(), vec![], false);
    cat.add(group("Gentoo", vec![doc("x", 1)], false));
    cat.add(group("gENTOO", vec![doc("y", 100)], false));
    assert_eq!(names(&cat), vec!["Gentoo"]);
    assert_eq!(names(as_category(&cat.items[0])), vec!["x", "y"]);
}

#[test]
fn add_merges_into_the_first_category_of_that_name() {
    let mut cat = Category::new(
        "g".to_string(),
        vec![doc("sub", 500), group("sub", vec![doc("x", 9)], false), group("SUB", vec![doc("y", 8)], false)],
        false,
    );
    assert_eq!(names(&cat), vec!["sub", "sub", "SUB"]);
    cat.add(group("Sub", vec![doc("z", 1)], false));
    assert_eq!(cat.items.len(), 3);
    assert_eq!(names(as_category(&cat.items[1])), vec!["x", "z"]);
    assert_eq!(names(as_category(&cat.items[2])), vec!["y"]);
}

#[test]
fn add_merges_depth_first() {
    let mut cat = Category::new("root".to_string(), vec![], false);
    cat.add(group("a", vec![group("b", vec![doc("x", 1)], false)], false));
    cat.add(group("A", vec![group("B", vec![doc("y", 2)], false), doc("z", 3)], false));
    assert_eq!(names(&cat), vec!["a"]);
    let a = as_category(&cat.items[0]);
    assert_eq!(names(a), vec!["b", "z"]);
    assert_eq!(names(as_category(&a.items[0])), vec!["x", "y"]);
}

#[test]
fn add_all_adds_in_order() {
    let mut cat = Category::new("g".to_string(), vec![doc("a", 5)], false);
    cat.add_all(vec![doc("b", 50), group("s", vec![doc("x", 1)], false), group("S", vec![doc("y", 2)], false)]);
    assert_eq!(names(&cat), vec!["a", "b", "s"]);
    assert_eq!(names(as_category(&cat.items[2])), vec!["x", "y"]);
}

#[test]
fn add_does_not_sort_again_or_touch_flags() {
    let mut cat = Category::new("g".to_string(), vec![], true);
    assert!(!cat.enabled);
    cat.add(doc("small", 1));
    cat.add(doc("large", 100));
    assert_eq!(names(&cat), vec!["small", "large"]);
    assert!(cat.items.iter().all(enabled_of));
    assert!(!cat.enabled);
    assert!(cat.can_download());
    assert_eq!(cat.size(true), 101);
}

#[test]
fn merging_what_is_left_of_a_merged_category_changes_nothing() {
    let mut parent = Category::new("root".to_string(), vec![], false);
    parent.add(group("Wikipedia", vec![doc("a", 10), doc("b", 5)], false));
    parent.add(group("wikipedia", vec![doc("c", 7)], false));
    let once = names(as_category(&parent.items[0]));
    assert_eq!(once, vec!["a", "b", "c"]);
    parent.add(group("wikipedia", vec![], false));
    assert_eq!(parent.items.len(), 1);
    assert_eq!(names(as_category(&parent.items[0])), once);
}

#[test]
fn sort_by_size_is_stable_and_descending() {
    let sorted = kiwix_catalog::order::sort_by_size(vec![doc("a", 2), doc("b", 3), doc("c", 2), doc("d", 1)]);
    let got: Vec<&str> = sorted.iter().map(name_of).collect();
    assert_eq!(got, vec!["b", "a", "c", "d"]);
}

#[test]
fn checked_size_agrees_with_size() {
    let cat = Category::new(
        "g".to_string(),
        vec![doc("a", 5), group("inner", vec![doc("x", 100), doc("y", 50)], true)],
        false,
    );
    assert_eq!(cat.checked_size(false), Some(155));
    assert_eq!(cat.checked_size(true), Some(105));
    let item = LibraryItem::Category(cat);
    assert_eq!(item.checked_size(false), Some(item.size(false)));
    assert_eq!(item.checked_size(true), Some(item.size(true)));
    let mut d = doc("d", 9);
    d.set_enabled(false);
    assert_eq!(d.checked_size(true), Some(0));
    assert_eq!(d.checked_size(false), Some(9));
}

#[test]
fn checked_size_gives_nothing_beyond_u64() {
    let mut cat = Category::new("g".to_string(), vec![doc("a", u64::MAX)], false);
    assert_eq!(cat.checked_size(false), Some(u64::MAX));
    cat.add(doc("b", 1));
    assert_eq!(cat.checked_size(false), None);
    assert_eq!(cat.checked_size(true), None);
    match &mut cat.items[0] {
        LibraryItem::Document(d) => d.enabled = false,
        LibraryItem::Category(_) => panic!("a category"),
    }
    assert_eq!(cat.checked_size(true), Some(1));
    let outer = Category::new("o".to_string(), vec![LibraryItem::Category(cat)], false);
    assert_eq!(outer.checked_size(false), None);
    assert_eq!(outer.checked_size(true), Some(1));
}

#[test]
fn checked_new_builds_what_new_builds() {
    let cat = Category::checked_new(
        "g".to_string(),
        vec![doc("small", 1), doc("large", 30), doc("middle", 20)],
        true,
    )
    .unwrap();
    assert_eq!(cat.name, "g");
    assert_eq!(names(&cat), vec!["large", "middle", "small"]);
    let flags: Vec<bool> = cat.items.iter().map(enabled_of).collect();
    assert_eq!(flags, vec![true, false, false]);
}

#[test]
fn checked_new_refuses_a_child_too_large_to_order() {
    let mut huge = Category::new("huge".to_string(), vec![doc("a", u64::MAX)], false);
    huge.add(doc("b", 1));
    let one = Category::checked_new("one".to_string(), vec![LibraryItem::Category(huge)], false).unwrap();
    assert_eq!(names(&one), vec!["huge"]);
    let mut huge = Category::new("huge".to_string(), vec![doc("a", u64::MAX)], false);
    huge.add(doc("b", 1));
    assert!(Category::checked_new(
        "two".to_string(),
        vec![doc("c", 3), LibraryItem::Category(huge)],
        false
    )
    .is_none());
}

#[test]
fn two_categories_of_one_name_become_one_with_the_children_of_both() {
    let mut parent = Category::new("root".to_string(), vec![doc("d", 1)], false);
    parent.add(group("Gentoo", vec![group("gentoo (wiki)", vec![doc("x", 1)], true)], false));
    parent.add(group("gentoo", vec![group("installgentoo (wiki)", vec![doc("y", 2)], true), doc("z", 3)], false));
    assert_eq!(names(&parent), vec!["d", "Gentoo"]);
    let merged = as_category(&parent.items[1]);
    assert_eq!(names(merged), vec!["gentoo (wiki)", "z", "installgentoo (wiki)"]);
    assert_eq!(merged.name, "Gentoo");
}

#[test]
fn merging_keeps_flags_consistent_with_what_can_be_fetched() {
    let caps = Capabilities::new(true, false);
    let mut parent = Category::new("root".to_string(), vec![rsync_doc("r", 4, &caps)], false);
    assert!(!parent.enabled);
    assert!(!parent.can_download());
    parent.add(group("sub", vec![doc("x", 1)], false));
    assert!(!parent.enabled);
    assert!(parent.can_download());
    let mut item = LibraryItem::Category(parent);
    assert!(item.set_enabled(true));
    let parent = as_category(&item);
    assert!(parent.enabled);
    assert!(parent.items.iter().any(|i| i.can_download()));
}
