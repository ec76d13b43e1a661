//! Sorting raw catalog records into the catalog tree.

use crate::grouping::{group_by_key, group_views, grouped};
use crate::routing::{route_for, route_of, Route};
use crate::types::{
    any_downloadable, item_views, Capabilities, Category, CategoryView, Document, DocumentView, DownloadType,
    ItemView, LibraryItem,
};
use vstd::prelude::*;
use vstd::string::StringExecFns;

verus! {

/// A raw record as a mathematical value: the category key it was listed
/// under, its size in bytes, its display name and its address.
pub struct RecordView {
    pub key: Seq<char>,
    pub size: u64,
    pub name: Seq<char>,
    pub url: Seq<char>,
}

pub open spec fn record_view(record: (String, u64, String, String)) -> RecordView {
    RecordView { key: record.0@, size: record.1, name: record.2@, url: record.3@ }
}

pub open spec fn record_views(records: Seq<(String, u64, String, String)>) -> Seq<RecordView> {
    Seq::new(records.len(), |i: int| record_view(records[i]))
}

/// The document that lists `record`: fetched over HTTP, under its display
/// name.
pub open spec fn document_of(record: RecordView, caps: Capabilities) -> ItemView {
    ItemView::Document(
        DocumentView {
            name: record.name,
            url: record.url,
            size: record.size,
            download_type: DownloadType::Http,
            enabled: true,
            caps,
        },
    )
}

pub open spec fn documents_of(records: Seq<RecordView>, caps: Capabilities) -> Seq<ItemView> {
    Seq::new(records.len(), |i: int| document_of(records[i], caps))
}

/// Turns a raw record into a document.
pub fn to_document(data: (String, u64, String, String), caps: &Capabilities) -> (item:
    LibraryItem)
    ensures
        item@ == document_of(record_view(data), *caps),
{
    let (_catname, size, name, url) = data;
    LibraryItem::Document(Document::new(name, url, size, DownloadType::Http, caps))
}

/// Turns the records of one group into documents, in order.
pub fn to_documents(group: Vec<(String, u64, String, String)>, caps: &Capabilities) -> (docs: Vec<
    LibraryItem,
>)
    ensures
        item_views(docs@) == documents_of(record_views(group@), *caps),
{
    let mut docs: Vec<LibraryItem> = Vec::new();
    for record in it: group
        invariant
            it.seq() == group@,
            docs.len() == it.index(),
            forall|j: int|
                0 <= j < docs.len() ==> (#[trigger] docs@[j])@ == document_of(
                    record_view(group@[j]),
                    *caps,
                ),
    {
        let doc = to_document(record, caps);
        docs.push(doc);
    }
    assert(item_views(docs@) =~= documents_of(record_views(group@), *caps));
    docs
}

/// A category without children.
pub open spec fn empty_category(name: Seq<char>) -> CategoryView {
    CategoryView { name, items: Seq::empty(), single_selection: false, enabled: false }
}

/// The category named `key` that holds a document for each record.
pub open spec fn wrapped(
    key: Seq<char>,
    records: Seq<RecordView>,
    caps: Capabilities,
    single_selection: bool,
) -> ItemView {
    ItemView::Category(CategoryView::build(key, documents_of(records, caps), single_selection))
}

/// The category named `family` whose only child is `inner`.
pub open spec fn nested(family: Seq<char>, inner: ItemView) -> ItemView {
    ItemView::Category(CategoryView::build(family, seq![inner], false))
}

/// What a key outside the table becomes: a lone record a document that goes
/// by the key, several records a single-selection category.
pub open spec fn loose_entry(key: Seq<char>, records: Seq<RecordView>, caps: Capabilities) -> ItemView {
    if records.len() == 1 {
        ItemView::Document(
            DocumentView {
                name: key,
                url: records[0].url,
                size: records[0].size,
                download_type: DownloadType::Http,
                enabled: true,
                caps,
            },
        )
    } else {
        wrapped(key, records, caps, true)
    }
}

/// What the records of `key` are made into before they are added to the
/// umbrella that `route` leads to.
pub open spec fn entry_for(
    route: Route,
    key: Seq<char>,
    records: Seq<RecordView>,
    caps: Capabilities,
) -> ItemView {
    match route {
        Route::Wikipedia => wrapped(key, records, caps, true),
        Route::Media => wrapped(key, records, caps, false),
        Route::Gentoo => nested("Gentoo"@, wrapped(key + " (wiki)"@, records, caps, true)),
        Route::Arch => nested("Arch"@, wrapped(key + " (wiki)"@, records, caps, true)),
        Route::Alpine => nested("Alpine"@, wrapped(key + " (wiki)"@, records, caps, true)),
        Route::Ted => nested("ted"@, loose_entry(key, records, caps)),
        Route::Zimgit | Route::StackExchange | Route::Avanti | Route::Other => loose_entry(
            key,
            records,
            caps,
        ),
    }
}

/// The companion programs that every catalog lists.
pub open spec fn software_documents(caps: Capabilities) -> Seq<ItemView> {
    seq![
        document_of(
            RecordView {
                key: Seq::empty(),
                size: 132_781_178,
                name: "Kiwix Desktop (Windows)"@,
                url: "https://download.kiwix.org/release/kiwix-desktop/kiwix-desktop_windows_x64.zip"@,
            },
            caps,
        ),
        document_of(
            RecordView {
                key: Seq::empty(),
                size: 12_194_938,
                name: "Kiwix Tools (Windows)"@,
                url: "https://download.kiwix.org/release/kiwix-tools/kiwix-tools_win-i686.zip"@,
            },
            caps,
        ),
        document_of(
            RecordView {
                key: Seq::empty(),
                size: 79_691_776,
                name: "Kiwix (Android)"@,
                url: "https://download.kiwix.org/release/kiwix-android/kiwix-3.9.1.apk"@,
            },
            caps,
        ),
        document_of(
            RecordView {
                key: Seq::empty(),
                size: 153_752_698,
                name: "Kiwix (Linux Appimage)"@,
                url: "https://download.kiwix.org/release/kiwix-desktop/kiwix-desktop_x86_64.appimage"@,
            },
            caps,
        ),
        document_of(
            RecordView {
                key: Seq::empty(),
                size: 19_597_885,
                name: "Kiwix Tools (Linux ARM)"@,
                url: "https://download.kiwix.org/release/kiwix-tools/kiwix-tools_linux-armhf.tar.gz"@,
            },
            caps,
        ),
    ]
}

pub open spec fn software_category(caps: Capabilities) -> ItemView {
    ItemView::Category(CategoryView::build("Kiwix Software"@, software_documents(caps), false))
}

/// The umbrella categories as mathematical values.
pub struct UmbrellasView {
    pub media: CategoryView,
    pub wikipedia: CategoryView,
    pub stack_exchange: CategoryView,
    pub avanti: CategoryView,
    pub zimgit: CategoryView,
    pub linux: CategoryView,
}

impl UmbrellasView {
    /// The umbrellas before any record has been sorted in.
    pub open spec fn start() -> UmbrellasView {
        UmbrellasView {
            media: empty_category("Media"@),
            wikipedia: empty_category("Wikipedia"@),
            stack_exchange: empty_category("Stack Exchange"@),
            avanti: empty_category("Avanti"@),
            zimgit: empty_category("zimgit"@),
            linux: empty_category("Linux"@),
        }
    }

    /// The umbrellas after `item` has been added where `route` leads.
    pub open spec fn with_added(self, route: Route, item: ItemView) -> UmbrellasView {
        match route {
            Route::Wikipedia => UmbrellasView {
                wikipedia: self.wikipedia.merged(item),
                ..self
            },
            Route::Gentoo | Route::Arch | Route::Alpine => UmbrellasView {
                linux: self.linux.merged(item),
                ..self
            },
            Route::Zimgit => UmbrellasView { zimgit: self.zimgit.merged(item), ..self },
            Route::StackExchange => UmbrellasView {
                stack_exchange: self.stack_exchange.merged(item),
                ..self
            },
            Route::Avanti => UmbrellasView { avanti: self.avanti.merged(item), ..self },
            Route::Media | Route::Ted | Route::Other => UmbrellasView {
                media: self.media.merged(item),
                ..self
            },
        }
    }

    /// The umbrellas after the records of `key` have been sorted in.
    pub open spec fn routed(self, key: Seq<char>, records: Seq<RecordView>, caps: Capabilities) -> UmbrellasView {
        self.with_added(route_for(key), entry_for(route_for(key), key, records, caps))
    }

    /// The umbrellas after each group has been sorted in, the first first.
    pub open spec fn routed_all(
        self,
        groups: Seq<(Seq<char>, Seq<RecordView>)>,
        caps: Capabilities,
    ) -> UmbrellasView
        decreases groups.len(),
    {
        if groups.len() == 0 {
            self
        } else {
            self.routed_all(groups.drop_last(), caps).routed(
                groups.last().0,
                groups.last().1,
                caps,
            )
        }
    }

    /// The roots of the catalog: "Wiki", which holds "Media" (with the
    /// family umbrellas merged into it) and the companion programs, and
    /// then "Linux".
    pub open spec fn assembled(self, caps: Capabilities) -> Seq<ItemView> {
        let media = self.media.merged(ItemView::Category(self.wikipedia)).merged(
            ItemView::Category(self.stack_exchange),
        ).merged(ItemView::Category(self.avanti)).merged(ItemView::Category(self.zimgit));
        let root = empty_category("Wiki"@).merged(ItemView::Category(media)).merged(
            software_category(caps),
        );
        seq![ItemView::Category(root), ItemView::Category(self.linux)]
    }
}

/// The catalog that a list of raw records gives.
pub open spec fn catalog(records: Seq<RecordView>, caps: Capabilities) -> Seq<ItemView> {
    UmbrellasView::start().routed_all(grouped(records), caps).assembled(caps)
}

/// The umbrella categories that records are sorted into.
#[derive(Debug)]
pub struct Umbrellas {
    pub media: Category,
    pub wikipedia: Category,
    pub stack_exchange: Category,
    pub avanti: Category,
    pub zimgit: Category,
    pub linux: Category,
}

impl View for Umbrellas {
    type V = UmbrellasView;

    open spec fn view(&self) -> UmbrellasView {
        UmbrellasView {
            media: self.media@,
            wikipedia: self.wikipedia@,
            stack_exchange: self.stack_exchange@,
            avanti: self.avanti@,
            zimgit: self.zimgit@,
            linux: self.linux@,
        }
    }
}

fn empty(name: &str) -> (cat: Category)
    ensures
        cat@ == empty_category(name@),
{
    let cat = Category::new(name.to_owned(), Vec::new(), false);
    proof {
        assert(item_views(Seq::<LibraryItem>::empty()) =~= Seq::<ItemView>::empty());
        assert(cat@.items =~= Seq::<ItemView>::empty());
        assert(!any_downloadable(cat@.items));
    }
    cat
}

fn wrap(
    key: String,
    group: Vec<(String, u64, String, String)>,
    caps: &Capabilities,
    single_selection: bool,
) -> (item: LibraryItem)
    ensures
        item@ == wrapped(key@, record_views(group@), *caps, single_selection),
{
    let docs = to_documents(group, caps);
    assert forall|i: int| 0 <= i < docs.len() implies (#[trigger] docs@[i])@.sort_key()
        <= u64::MAX by {
        assert(item_views(docs@)[i] == docs@[i]@);
    }
    LibraryItem::Category(Category::new(key, docs, single_selection))
}

fn nest(family: &str, inner: LibraryItem) -> (item: LibraryItem)
    ensures
        item@ == nested(family@, inner@),
{
    let mut items: Vec<LibraryItem> = Vec::new();
    items.push(inner);
    assert(item_views(items@) =~= seq![inner@]);
    LibraryItem::Category(Category::new(family.to_owned(), items, false))
}

fn loose(key: String, group: Vec<(String, u64, String, String)>, caps: &Capabilities) -> (item:
    LibraryItem)
    ensures
        item@ == loose_entry(key@, record_views(group@), *caps),
{
    if group.len() == 1 {
        let url = group[0].3.clone();
        let size = group[0].1;
        assert(record_views(group@)[0] == record_view(group@[0]));
        LibraryItem::Document(Document::new(key, url, size, DownloadType::Http, caps))
    } else {
        wrap(key, group, caps, true)
    }
}

/// Makes the records of `key` into what is added to the umbrella that
/// `route` leads to.
pub fn make_entry(
    route: Route,
    key: String,
    group: Vec<(String, u64, String, String)>,
    caps: &Capabilities,
) -> (item: LibraryItem)
    ensures
        item@ == entry_for(route, key@, record_views(group@), *caps),
{
    match route {
        Route::Wikipedia => wrap(key, group, caps, true),
        Route::Media => wrap(key, group, caps, false),
        Route::Gentoo => nest("Gentoo", wrap(key.concat(" (wiki)"), group, caps, true)),
        Route::Arch => nest("Arch", wrap(key.concat(" (wiki)"), group, caps, true)),
        Route::Alpine => nest("Alpine", wrap(key.concat(" (wiki)"), group, caps, true)),
        Route::Ted => nest("ted", loose(key, group, caps)),
        Route::Zimgit | Route::StackExchange | Route::Avanti | Route::Other => loose(
            key,
            group,
            caps,
        ),
    }
}

/// The category of companion programs that every catalog lists.
pub fn kiwix_software_category(caps: &Capabilities) -> (item: LibraryItem)
    ensures
        item@ == software_category(*caps),
{
    let mut items: Vec<LibraryItem> = Vec::new();
    items.push(
        to_document(
            (
                String::new(),
                132_781_178,
                "Kiwix Desktop (Windows)".to_owned(),
                "https://download.kiwix.org/release/kiwix-desktop/kiwix-desktop_windows_x64.zip".to_owned(),
            ),
            caps,
        ),
    );
    items.push(
        to_document(
            (
                String::new(),
                12_194_938,
                "Kiwix Tools (Windows)".to_owned(),
                "https://download.kiwix.org/release/kiwix-tools/kiwix-tools_win-i686.zip".to_owned(),
            ),
            caps,
        ),
    );
    items.push(
        to_document(
            (
                String::new(),
                79_691_776,
                "Kiwix (Android)".to_owned(),
                "https://download.kiwix.org/release/kiwix-android/kiwix-3.9.1.apk".to_owned(),
            ),
            caps,
        ),
    );
    items.push(
        to_document(
            (
                String::new(),
                153_752_698,
                "Kiwix (Linux Appimage)".to_owned(),
                "https://download.kiwix.org/release/kiwix-desktop/kiwix-desktop_x86_64.appimage".to_owned(),
            ),
            caps,
        ),
    );
    items.push(
        to_document(
            (
                String::new(),
                19_597_885,
                "Kiwix Tools (Linux ARM)".to_owned(),
                "https://download.kiwix.org/release/kiwix-tools/kiwix-tools_linux-armhf.tar.gz".to_owned(),
            ),
            caps,
        ),
    );
    assert(item_views(items@) =~= software_documents(*caps));
    LibraryItem::Category(Category::new("Kiwix Software".to_owned(), items, false))
}

impl Umbrellas {
    /// The umbrellas before any record has been sorted in.
    pub fn new() -> (umbrellas: Self)
        ensures
            umbrellas@ == UmbrellasView::start(),
    {
        Umbrellas {
            media: empty("Media"),
            wikipedia: empty("Wikipedia"),
            stack_exchange: empty("Stack Exchange"),
            avanti: empty("Avanti"),
            zimgit: empty("zimgit"),
            linux: empty("Linux"),
        }
    }

    /// Adds `item` to the umbrella that `route` leads to.
    pub fn place(&mut self, route: Route, item: LibraryItem)
        ensures
            final(self)@ == old(self)@.with_added(route, item@),
    {
        match route {
            Route::Wikipedia => self.wikipedia.add(item),
            Route::Gentoo | Route::Arch | Route::Alpine => self.linux.add(item),
            Route::Zimgit => self.zimgit.add(item),
            Route::StackExchange => self.stack_exchange.add(item),
            Route::Avanti => self.avanti.add(item),
            Route::Media | Route::Ted | Route::Other => self.media.add(item),
        }
    }

    /// Sorts the records of one category key in.
    pub fn route(
        &mut self,
        key: String,
        group: Vec<(String, u64, String, String)>,
        caps: &Capabilities,
    )
        ensures
            final(self)@ == old(self)@.routed(key@, record_views(group@), *caps),
    {
        let route = route_of(key.as_str());
        let entry = make_entry(route, key, group, caps);
        self.place(route, entry);
    }

    /// Merges the family umbrellas into "Media" and hands out the roots of
    /// the catalog.
    pub fn assemble(self, caps: &Capabilities) -> (roots: Vec<LibraryItem>)
        ensures
            item_views(roots@) == self@.assembled(*caps),
    {
        let mut media = self.media;
        media.add(LibraryItem::Category(self.wikipedia));
        media.add(LibraryItem::Category(self.stack_exchange));
        media.add(LibraryItem::Category(self.avanti));
        media.add(LibraryItem::Category(self.zimgit));
        let mut root = empty("Wiki");
        root.add(LibraryItem::Category(media));
        root.add(kiwix_software_category(caps));
        let mut roots: Vec<LibraryItem> = Vec::new();
        roots.push(LibraryItem::Category(root));
        roots.push(LibraryItem::Category(self.linux));
        assert(item_views(roots@) =~= self@.assembled(*caps));
        roots
    }
}

/// Sorts raw records into the catalog: first the root "Wiki" with the general
/// content, then the root "Linux" with the distributions.
pub fn parse_items_into_categories(
    items: Vec<(String, u64, String, String)>,
    caps: &Capabilities,
) -> (roots: Vec<LibraryItem>)
    ensures
        item_views(roots@) == catalog(record_views(items@), *caps),
{
    let groups = group_by_key(items);
    let ghost all = group_views(groups@);
    let mut umbrellas = Umbrellas::new();
    for group in it: groups
        invariant
            it.seq() == groups@,
            all == group_views(groups@),
            umbrellas@ == UmbrellasView::start().routed_all(all.take(it.index() as int), *caps),
    {
        let ghost n = it.index() as int;
        assert(group == groups@[n]);
        assert(all.take(n + 1).drop_last() =~= all.take(n));
        assert(all.take(n + 1).last() == all[n]);
        let (key, members) = group;
        umbrellas.route(key, members, caps);
    }
    assert(all.take(groups.len() as int) =~= all);
    umbrellas.assemble(caps)
}

} // verus!
