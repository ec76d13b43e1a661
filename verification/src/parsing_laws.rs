//! What holds of every catalog that records are sorted into.

use crate::laws::{
    lemma_build_well_formed, lemma_merge_never_duplicates, lemma_merged_frame,
    lemma_merged_well_formed, names_differ,
};
use crate::parsing::{
    catalog, documents_of, empty_category, entry_for, loose_entry, nested, software_category,
    software_documents, wrapped, RecordView, UmbrellasView,
};
use crate::grouping::grouped;
use crate::routing::{route_for, Route};
use crate::types::{Capabilities, CategoryView, ItemView};
use vstd::prelude::*;

verus! {

impl UmbrellasView {
    /// Each umbrella has the name and the flags of `other`'s.
    pub open spec fn labelled_like(self, other: UmbrellasView) -> bool {
        &&& self.media.with_items(other.media.items) == other.media
        &&& self.wikipedia.with_items(other.wikipedia.items) == other.wikipedia
        &&& self.stack_exchange.with_items(other.stack_exchange.items) == other.stack_exchange
        &&& self.avanti.with_items(other.avanti.items) == other.avanti
        &&& self.zimgit.with_items(other.zimgit.items) == other.zimgit
        &&& self.linux.with_items(other.linux.items) == other.linux
    }

    /// Each umbrella is sound.
    pub open spec fn sound(self) -> bool {
        &&& sound_category(self.media)
        &&& sound_category(self.wikipedia)
        &&& sound_category(self.stack_exchange)
        &&& sound_category(self.avanti)
        &&& sound_category(self.zimgit)
        &&& sound_category(self.linux)
    }
}

/// The documents that list records are well formed.
pub proof fn lemma_documents_well_formed(records: Seq<RecordView>, caps: Capabilities)
    ensures
        forall|i: int|
            0 <= i < documents_of(records, caps).len() ==> (#[trigger] documents_of(
                records,
                caps,
            )[i]).well_formed(),
{
}

/// What the records of one key are made into is well formed, whichever way
/// they go.
pub proof fn lemma_entries_well_formed(
    key: Seq<char>,
    family: Seq<char>,
    records: Seq<RecordView>,
    caps: Capabilities,
    single_selection: bool,
)
    ensures
        wrapped(key, records, caps, single_selection).well_formed(),
        loose_entry(key, records, caps).well_formed(),
        nested(family, wrapped(key, records, caps, single_selection)).well_formed(),
        nested(family, loose_entry(key, records, caps)).well_formed(),
{
    lemma_documents_well_formed(records, caps);
    lemma_build_well_formed(key, documents_of(records, caps), single_selection);
    lemma_build_well_formed(key, documents_of(records, caps), true);
    lemma_build_well_formed(family, seq![wrapped(key, records, caps, single_selection)], false);
    lemma_build_well_formed(family, seq![loose_entry(key, records, caps)], false);
}

/// A category is sound when it is well formed and no two of its child
/// categories go by the same name.
pub open spec fn sound_category(category: CategoryView) -> bool {
    ItemView::Category(category).well_formed() && names_differ(category.items)
}

/// Adding a well-formed entry keeps the name and the flags of an umbrella,
/// and keeps it sound.
pub proof fn lemma_umbrella_keeps(parent: CategoryView, item: ItemView)
    requires
        item.well_formed(),
    ensures
        parent.merged(item).with_items(parent.items) == parent,
        sound_category(parent) ==> sound_category(parent.merged(item)),
{
    lemma_merged_frame(parent, item);
    if sound_category(parent) {
        lemma_merged_well_formed(parent, item);
        lemma_merge_never_duplicates(parent, item);
    }
}

/// What the records of a key are made into is well formed.
pub proof fn lemma_entry_well_formed(
    route: Route,
    key: Seq<char>,
    records: Seq<RecordView>,
    caps: Capabilities,
)
    ensures
        entry_for(route, key, records, caps).well_formed(),
{
    let marked = key + " (wiki)"@;
    match route {
        Route::Wikipedia => lemma_entries_well_formed(key, key, records, caps, true),
        Route::Media => lemma_entries_well_formed(key, key, records, caps, false),
        Route::Gentoo => lemma_entries_well_formed(marked, "Gentoo"@, records, caps, true),
        Route::Arch => lemma_entries_well_formed(marked, "Arch"@, records, caps, true),
        Route::Alpine => lemma_entries_well_formed(marked, "Alpine"@, records, caps, true),
        Route::Ted => lemma_entries_well_formed(key, "ted"@, records, caps, true),
        _ => lemma_entries_well_formed(key, key, records, caps, true),
    }
}

/// Adding a well-formed entry where a route leads keeps the names and flags
/// of the umbrellas, and keeps them sound.
pub proof fn lemma_with_added_keeps(state: UmbrellasView, route: Route, item: ItemView)
    requires
        item.well_formed(),
    ensures
        state.with_added(route, item).labelled_like(state),
        state.sound() ==> state.with_added(route, item).sound(),
{
    lemma_umbrella_keeps(state.media, item);
    lemma_umbrella_keeps(state.wikipedia, item);
    lemma_umbrella_keeps(state.stack_exchange, item);
    lemma_umbrella_keeps(state.avanti, item);
    lemma_umbrella_keeps(state.zimgit, item);
    lemma_umbrella_keeps(state.linux, item);
}

/// Sorting the records of one key in keeps the names and flags of the
/// umbrellas, and keeps them sound.
pub proof fn lemma_routed_keeps(
    state: UmbrellasView,
    key: Seq<char>,
    records: Seq<RecordView>,
    caps: Capabilities,
)
    ensures
        state.routed(key, records, caps).labelled_like(state),
        state.sound() ==> state.routed(key, records, caps).sound(),
{
    lemma_entry_well_formed(route_for(key), key, records, caps);
    lemma_with_added_keeps(
        state,
        route_for(key),
        entry_for(route_for(key), key, records, caps),
    );
}

/// Sorting groups in one after another keeps the names and flags of the
/// umbrellas, and keeps them sound.
pub proof fn lemma_routed_all_keeps(
    state: UmbrellasView,
    groups: Seq<(Seq<char>, Seq<RecordView>)>,
    caps: Capabilities,
)
    ensures
        state.routed_all(groups, caps).labelled_like(state),
        state.sound() ==> state.routed_all(groups, caps).sound(),
    decreases groups.len(),
{
    if groups.len() > 0 {
        lemma_routed_all_keeps(state, groups.drop_last(), caps);
        lemma_routed_keeps(
            state.routed_all(groups.drop_last(), caps),
            groups.last().0,
            groups.last().1,
            caps,
        );
    }
}

/// The companion programs are a well-formed category of five documents.
pub proof fn lemma_software_category(caps: Capabilities)
    ensures
        software_category(caps) is Category,
        software_category(caps)->Category_0.name == "Kiwix Software"@,
        software_category(caps)->Category_0.items.len() == 5,
        software_category(caps).well_formed(),
{
    lemma_build_well_formed("Kiwix Software"@, software_documents(caps), false);
}

/// Every catalog has two roots, first "Wiki" and then "Linux". Both are
/// well-formed categories, in neither do two child categories go by the
/// same name, and "Wiki" ends with the companion programs.
pub proof fn lemma_catalog_roots(records: Seq<RecordView>, caps: Capabilities)
    ensures
        catalog(records, caps).len() == 2,
        catalog(records, caps)[0] is Category,
        catalog(records, caps)[1] is Category,
        catalog(records, caps)[0]->Category_0.name == "Wiki"@,
        catalog(records, caps)[1]->Category_0.name == "Linux"@,
        catalog(records, caps)[0].well_formed(),
        catalog(records, caps)[1].well_formed(),
        names_differ(catalog(records, caps)[0]->Category_0.items),
        names_differ(catalog(records, caps)[1]->Category_0.items),
        catalog(records, caps)[0]->Category_0.items.len() >= 1,
        catalog(records, caps)[0]->Category_0.items.last() == software_category(caps),
{
    let start = UmbrellasView::start();
    let state = start.routed_all(grouped(records), caps);
    lemma_routed_all_keeps(start, grouped(records), caps);
    assert(start.sound());
    let m1 = state.media.merged(ItemView::Category(state.wikipedia));
    let m2 = m1.merged(ItemView::Category(state.stack_exchange));
    let m3 = m2.merged(ItemView::Category(state.avanti));
    let media = m3.merged(ItemView::Category(state.zimgit));
    lemma_umbrella_keeps(state.media, ItemView::Category(state.wikipedia));
    lemma_umbrella_keeps(m1, ItemView::Category(state.stack_exchange));
    lemma_umbrella_keeps(m2, ItemView::Category(state.avanti));
    lemma_umbrella_keeps(m3, ItemView::Category(state.zimgit));
    let root = empty_category("Wiki"@);
    let r1 = root.merged(ItemView::Category(media));
    let software = software_category(caps);
    lemma_software_category(caps);
    assert(sound_category(root));
    lemma_umbrella_keeps(root, ItemView::Category(media));
    lemma_umbrella_keeps(r1, software);
    lemma_merged_frame(root, ItemView::Category(media));
    assert(r1.merged(software).items == r1.items.push(software)) by {
        reveal_strlit("Media");
        reveal_strlit("Kiwix Software");
        assert(media.name == "Media"@);
        if crate::category::has_named(r1.items, "Kiwix Software"@) {
            let i = crate::category::first_named(r1.items, "Kiwix Software"@);
            assert(crate::category::is_first_named(r1.items, "Kiwix Software"@, i));
            assert(r1.items[i] == ItemView::Category(media));
        }
    }
}

} // verus!
