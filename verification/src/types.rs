//! The catalog tree: documents (leaves), categories (groups) and the
//! operations on them.

use vstd::prelude::*;

verus! {

/// How a document is retrieved.
#[derive(Debug, Clone, Copy, PartialEq, Eq, Structural)]
pub enum DownloadType {
    Http,
    Rsync,
    Either,
}

/// What the host can do, determined once and handed to every document
/// when it is built.
#[derive(Debug, Clone, Copy, PartialEq, Eq, Structural)]
pub struct Capabilities {
    /// The host belongs to the Windows family, where rsync is not relied on.
    pub is_windows: bool,
    /// An rsync client was found on the search path.
    pub has_rsync: bool,
}

impl Capabilities {
    /// Whether a document with the given transport can be fetched on this host:
    /// always, unless it needs rsync and the host is Windows or has no rsync.
    pub open spec fn allows(self, download_type: DownloadType) -> bool {
        download_type != DownloadType::Rsync || (!self.is_windows && self.has_rsync)
    }

    pub fn new(is_windows: bool, has_rsync: bool) -> (caps: Self)
        ensures
            caps.is_windows == is_windows,
            caps.has_rsync == has_rsync,
    {
        Capabilities { is_windows, has_rsync }
    }

    /// Executable form of [`Capabilities::allows`].
    pub fn permits(&self, download_type: DownloadType) -> (ok: bool)
        ensures
            ok == self.allows(download_type),
    {
        match download_type {
            DownloadType::Rsync => !self.is_windows && self.has_rsync,
            _ => true,
        }
    }
}

/// A document as a mathematical value.
pub struct DocumentView {
    pub name: Seq<char>,
    pub url: Seq<char>,
    pub size: u64,
    pub download_type: DownloadType,
    pub enabled: bool,
    pub caps: Capabilities,
}

/// A category as a mathematical value.
pub struct CategoryView {
    pub name: Seq<char>,
    pub items: Seq<ItemView>,
    pub single_selection: bool,
    pub enabled: bool,
}

/// A catalog entry as a mathematical value.
pub enum ItemView {
    Document(DocumentView),
    Category(CategoryView),
}

impl DocumentView {
    /// The host the document was built on can fetch it.
    pub open spec fn can_download(self) -> bool {
        self.caps.allows(self.download_type)
    }

    /// The stored size, or nothing when only enabled entries count and this
    /// one is switched off.
    pub open spec fn size(self, enabled_only: bool) -> nat {
        if !enabled_only || self.enabled {
            self.size as nat
        } else {
            0
        }
    }

    pub open spec fn with_enabled(self, enabled: bool) -> DocumentView {
        DocumentView { enabled, ..self }
    }

    /// The document as it is built for the host described by `caps`: enabled
    /// exactly when that host can fetch it.
    pub open spec fn build(
        name: Seq<char>,
        url: Seq<char>,
        size: u64,
        download_type: DownloadType,
        caps: Capabilities,
    ) -> DocumentView {
        DocumentView { name, url, size, download_type, enabled: caps.allows(download_type), caps }
    }
}

impl ItemView {
    /// A document can be fetched when its host allows its transport; a
    /// category when any of its children can, whatever the flags say.
    pub open spec fn can_download(self) -> bool
        decreases self,
    {
        match self {
            ItemView::Document(d) => d.can_download(),
            ItemView::Category(c) => any_downloadable(c.items),
        }
    }

    /// The bytes an entry stands for: a document's own, a category's children
    /// added up.
    pub open spec fn size(self, enabled_only: bool) -> nat
        decreases self,
    {
        match self {
            ItemView::Document(d) => d.size(enabled_only),
            ItemView::Category(c) => total_size(c.items, enabled_only),
        }
    }

    /// The entry's own flag.
    pub open spec fn enabled(self) -> bool {
        match self {
            ItemView::Document(d) => d.enabled,
            ItemView::Category(c) => c.enabled,
        }
    }

    /// The entry with its own flag replaced; children are left alone.
    pub open spec fn with_enabled(self, enabled: bool) -> ItemView {
        match self {
            ItemView::Document(d) => ItemView::Document(d.with_enabled(enabled)),
            ItemView::Category(c) => ItemView::Category(c.with_enabled(enabled)),
        }
    }

    /// No flag is on where nothing can be fetched: an enabled document can be
    /// fetched, an enabled category has a child that can, and so on down the
    /// tree.
    pub open spec fn well_formed(self) -> bool
        decreases self,
    {
        match self {
            ItemView::Document(d) => d.enabled ==> d.can_download(),
            ItemView::Category(c) => {
                &&& c.enabled ==> any_downloadable(c.items)
                &&& forall|i: int| 0 <= i < c.items.len() ==> (#[trigger] c.items[i]).well_formed()
            },
        }
    }

    /// The size by which a category orders its children when it is built: a
    /// document's stored size, a category's enabled size.
    pub open spec fn sort_key(self) -> nat {
        match self {
            ItemView::Document(d) => d.size as nat,
            ItemView::Category(c) => total_size(c.items, true),
        }
    }
}

/// Some entry of `items` can be fetched.
pub open spec fn any_downloadable(items: Seq<ItemView>) -> bool
    decreases items,
{
    exists|i: int| 0 <= i < items.len() && (#[trigger] items[i]).can_download()
}

/// The sizes of `items` added up.
pub open spec fn total_size(items: Seq<ItemView>, enabled_only: bool) -> nat
    decreases items,
{
    if items.len() == 0 {
        0
    } else {
        total_size(items.drop_last(), enabled_only) + items.last().size(enabled_only)
    }
}

impl CategoryView {
    pub open spec fn can_download(self) -> bool {
        any_downloadable(self.items)
    }

    pub open spec fn size(self, enabled_only: bool) -> nat {
        total_size(self.items, enabled_only)
    }

    pub open spec fn with_enabled(self, enabled: bool) -> CategoryView {
        CategoryView { enabled, ..self }
    }

    pub open spec fn with_items(self, items: Seq<ItemView>) -> CategoryView {
        CategoryView { items, ..self }
    }
}

/// A downloadable entry with a name, an address and a size.
#[derive(Debug)]
pub struct Document {
    pub name: String,
    pub url: String,
    pub size: u64,
    pub download_type: DownloadType,
    pub enabled: bool,
    pub caps: Capabilities,
}

/// A named group of entries.
#[derive(Debug)]
pub struct Category {
    pub name: String,
    pub items: Vec<LibraryItem>,
    pub single_selection: bool,
    pub enabled: bool,
}

/// An entry of the catalog tree.
#[derive(Debug)]
pub enum LibraryItem {
    Document(Document),
    Category(Category),
}

impl View for Document {
    type V = DocumentView;

    open spec fn view(&self) -> DocumentView {
        DocumentView {
            name: self.name@,
            url: self.url@,
            size: self.size,
            download_type: self.download_type,
            enabled: self.enabled,
            caps: self.caps,
        }
    }
}

impl View for LibraryItem {
    type V = ItemView;

    open spec fn view(&self) -> ItemView
        decreases self,
    {
        match self {
            LibraryItem::Document(d) => ItemView::Document(d@),
            LibraryItem::Category(c) => ItemView::Category(c@),
        }
    }
}

impl View for Category {
    type V = CategoryView;

    open spec fn view(&self) -> CategoryView
        decreases self,
    {
        CategoryView {
            name: self.name@,
            items: Seq::new(
                self.items@.len(),
                |i: int|
                    if 0 <= i < self.items@.len() {
                        self.items@[i]@
                    } else {
                        arbitrary()
                    },
            ),
            single_selection: self.single_selection,
            enabled: self.enabled,
        }
    }
}

/// The views of `items`, in order.
pub open spec fn item_views(items: Seq<LibraryItem>) -> Seq<ItemView> {
    Seq::new(items.len(), |i: int| items[i]@)
}

/// A category's view lists the views of its children.
pub proof fn lemma_view_items(c: &Category)
    ensures
        c@.items == item_views(c.items@),
        c@.items.len() == c.items@.len(),
        forall|i: int| 0 <= i < c.items@.len() ==> #[trigger] c@.items[i] == c.items@[i]@,
{
    assert(c@.items =~= item_views(c.items@));
}

/// Adding up a prefix one entry longer adds that entry's size, and no prefix
/// weighs more than the whole.
pub proof fn lemma_total_size_prefix(items: Seq<ItemView>, enabled_only: bool, n: int)
    requires
        0 <= n < items.len(),
    ensures
        total_size(items.take(n + 1), enabled_only) == total_size(items.take(n), enabled_only)
            + items[n].size(enabled_only),
        total_size(items.take(n + 1), enabled_only) <= total_size(items, enabled_only),
    decreases items.len() - n,
{
    assert(items.take(n + 1).drop_last() =~= items.take(n));
    if n + 1 == items.len() {
        assert(items.take(n + 1) =~= items);
    } else {
        lemma_total_size_prefix(items, enabled_only, n + 1);
    }
}

impl Document {
    /// Builds a document for the host described by `caps`. It starts
    /// enabled exactly when that host can fetch it.
    pub fn new(
        name: String,
        url: String,
        size: u64,
        d_type: DownloadType,
        caps: &Capabilities,
    ) -> (doc: Self)
        ensures
            doc@ == DocumentView::build(name@, url@, size, d_type, *caps),
            doc.name == name,
            doc.url == url,
    {
        let enabled = caps.permits(d_type);
        Document { name, url, size, download_type: d_type, enabled, caps: *caps }
    }

    /// Whether the host this document was built on can fetch it.
    pub fn can_download(&self) -> (ok: bool)
        ensures
            ok == self@.can_download(),
    {
        self.caps.permits(self.download_type)
    }
}

impl LibraryItem {
    /// Switches the entry's own flag on or off. An entry that cannot be
    /// fetched stays off. Returns the flag as it now stands.
    pub fn set_enabled(&mut self, enabled: bool) -> (now: bool)
        ensures
            now == (enabled && old(self)@.can_download()),
            final(self)@ == old(self)@.with_enabled(now),
    {
        match self {
            LibraryItem::Document(doc) => {
                if doc.can_download() {
                    doc.enabled = enabled;
                } else {
                    doc.enabled = false;
                }
                doc.enabled
            },
            LibraryItem::Category(cat) => {
                if cat.can_download() {
                    cat.enabled = enabled;
                } else {
                    cat.enabled = false;
                }
                cat.enabled
            },
        }
    }

    /// Whether the entry can be fetched on its host, whatever its flags say.
    pub fn can_download(&self) -> (ok: bool)
        ensures
            ok == self@.can_download(),
        decreases self,
    {
        match self {
            LibraryItem::Document(doc) => doc.can_download(),
            LibraryItem::Category(cat) => cat.can_download(),
        }
    }

    /// The bytes the entry stands for; with `enabled_only`, documents that
    /// are switched off count for nothing.
    pub fn size(&self, enabled_only: bool) -> (total: u64)
        requires
            self@.size(enabled_only) <= u64::MAX,
        ensures
            total == self@.size(enabled_only),
        decreases self,
    {
        match self {
            LibraryItem::Document(doc) => {
                if enabled_only {
                    if doc.enabled {
                        doc.size
                    } else {
                        0
                    }
                } else {
                    doc.size
                }
            },
            LibraryItem::Category(cat) => cat.size(enabled_only),
        }
    }

    /// The bytes the entry stands for, as [`LibraryItem::size`] gives them,
    /// or nothing where they are more than a `u64` holds.
    pub fn checked_size(&self, enabled_only: bool) -> (total: Option<u64>)
        ensures
            match total {
                Some(t) => t == self@.size(enabled_only),
                None => self@.size(enabled_only) > u64::MAX,
            },
        decreases self,
    {
        match self {
            LibraryItem::Document(doc) => Some(
                if enabled_only && !doc.enabled {
                    0
                } else {
                    doc.size
                },
            ),
            LibraryItem::Category(cat) => cat.checked_size(enabled_only),
        }
    }
}

impl Category {
    /// Whether any child can be fetched.
    pub fn can_download(&self) -> (ok: bool)
        ensures
            ok == self@.can_download(),
        decreases self,
    {
        proof {
            lemma_view_items(self);
        }
        let mut i: usize = 0;
        while i < self.items.len()
            invariant
                i <= self.items.len(),
                forall|j: int| 0 <= j < i ==> !(#[trigger] self.items@[j])@.can_download(),
                forall|j: int|
                    0 <= j < self.items@.len() ==> #[trigger] self@.items[j] == self.items@[j]@,
                self@.items.len() == self.items@.len(),
            decreases self.items.len() - i,
        {
            if self.items[i].can_download() {
                assert(self@.items[i as int].can_download());
                return true;
            }
            i += 1;
        }
        false
    }

    /// The sizes of the children added up, computed afresh on every call.
    pub fn size(&self, enabled_only: bool) -> (total: u64)
        requires
            self@.size(enabled_only) <= u64::MAX,
        ensures
            total == self@.size(enabled_only),
        decreases self,
    {
        proof {
            lemma_view_items(self);
        }
        let mut total: u64 = 0;
        let mut i: usize = 0;
        while i < self.items.len()
            invariant
                i <= self.items.len(),
                total == total_size(self@.items.take(i as int), enabled_only),
                total_size(self@.items, enabled_only) <= u64::MAX,
                forall|j: int|
                    0 <= j < self.items@.len() ==> #[trigger] self@.items[j] == self.items@[j]@,
                self@.items.len() == self.items@.len(),
            decreases self.items.len() - i,
        {
            proof {
                lemma_total_size_prefix(self@.items, enabled_only, i as int);
            }
            let part = self.items[i].size(enabled_only);
            total = total + part;
            i += 1;
        }
        assert(self@.items.take(i as int) =~= self@.items);
        total
    }

    /// The sizes of the children added up, as [`Category::size`] gives them,
    /// or nothing where they are more than a `u64` holds.
    pub fn checked_size(&self, enabled_only: bool) -> (total: Option<u64>)
        ensures
            match total {
                Some(t) => t == self@.size(enabled_only),
                None => self@.size(enabled_only) > u64::MAX,
            },
        decreases self,
    {
        proof {
            lemma_view_items(self);
        }
        let mut total: u64 = 0;
        let mut i: usize = 0;
        while i < self.items.len()
            invariant
                i <= self.items.len(),
                total == total_size(self@.items.take(i as int), enabled_only),
                forall|j: int|
                    0 <= j < self.items@.len() ==> #[trigger] self@.items[j] == self.items@[j]@,
                self@.items.len() == self.items@.len(),
            decreases self.items.len() - i,
        {
            proof {
                lemma_total_size_prefix(self@.items, enabled_only, i as int);
            }
            match self.items[i].checked_size(enabled_only) {
                None => {
                    return None;
                },
                Some(part) => match total.checked_add(part) {
                    None => {
                        return None;
                    },
                    Some(sum) => {
                        total = sum;
                    },
                },
            }
            i += 1;
        }
        assert(self@.items.take(i as int) =~= self@.items);
        Some(total)
    }
}

} // verus!
