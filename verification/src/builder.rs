//! The layout of a docset, its metadata file, and the run that fills its
//! index.

use vstd::prelude::*;
use crate::entry::{row_of, rows_of, Entry, EntryView};
use crate::extract::{
    collect_entries, lemma_gather_contains, lemma_gather_ok, page_step, pages_extraction,
    ExtractError, Page, PageView,
};
use crate::index::{
    lemma_fresh_index_row_set, lemma_reordering_keeps_members, lemma_with_rows_no_duplicates,
    with_rows, IndexStore, RowView,
};
use crate::paths::{join, joined, last_segment, last_segment_of, parent, parent_of};

verus! {

/// The metadata file up to the bundle identifier.
pub const PLIST_HEAD: &'static str =
    "<?xml version=\"1.0\" encoding=\"UTF-8\"?>\n<!DOCTYPE plist PUBLIC \"-//Apple//DTD PLIST 1.0//EN\" \"http://www.apple.com/DTDs/PropertyList-1.0.dtd\">\n        <plist version=\"1.0\">\n        <dict>\n        <key>CFBundleIdentifier</key>\n        <string>";

/// From the bundle identifier to the bundle name.
pub const PLIST_NAME: &'static str =
    "</string>\n        <key>CFBundleName</key>\n        <string>";

/// From the bundle name to the platform family.
pub const PLIST_FAMILY: &'static str =
    "</string>\n        <key>DocSetPlatformFamily</key>\n        <string>";

/// From the platform family, over the flag that marks a documentation set, to
/// the fallback address.
pub const PLIST_FALLBACK: &'static str =
    "</string>\n        <key>isDashDocset</key>\n        <true/>\n        <key>DashDocSetFallbackURL</key>\n        <string>https://docs.rs/";

/// From the fallback address to the landing page.
pub const PLIST_LANDING: &'static str =
    "</string>\n        <key>dashIndexFilePath</key>\n        <string>";

/// From the landing page to the end of the file.
pub const PLIST_TAIL: &'static str =
    "/index.html</string>\n        <key>isJavaScriptEnabled</key><true/>\n        </dict>\n        </plist>";

/// The text of the metadata file of a docset called `name`, whose lower-case
/// form is `lower`. The identifier, the platform family and the landing page
/// take the lower-case form; the bundle name and the fallback address take
/// the name as it is.
pub open spec fn plist_text(name: Seq<char>, lower: Seq<char>) -> Seq<char> {
    PLIST_HEAD@ + lower + PLIST_NAME@ + name + PLIST_FAMILY@ + lower + PLIST_FALLBACK@ + name
        + PLIST_LANDING@ + lower + PLIST_TAIL@
}

/// Returns the text of the metadata file for a docset called `name` whose
/// lower-case form is `lower`.
pub fn plist_with(name: &str, lower: &str) -> (text: String)
    ensures
        text@ == plist_text(name@, lower@),
{
    let mut text = String::from_str(PLIST_HEAD);
    text.append(lower);
    text.append(PLIST_NAME);
    text.append(name);
    text.append(PLIST_FAMILY);
    text.append(lower);
    text.append(PLIST_FALLBACK);
    text.append(name);
    text.append(PLIST_LANDING);
    text.append(lower);
    text.append(PLIST_TAIL);
    text
}

/// The lower-case form of a text under Unicode's case mapping.
pub uninterp spec fn lowercase_of(text: Seq<char>) -> Seq<char>;

/// Calls `str::to_lowercase`. Nothing is proved of the case mapping: the
/// contract gives the result a name and claims only that it depends on the
/// text alone.
#[verifier::external_body]
fn lowercase(text: &str) -> (lower: String)
    ensures
        lower@ == lowercase_of(text@),
{
    text.to_lowercase()
}

/// The root directory of the docset called `name` below the directory `dest`.
pub open spec fn root_of(dest: Seq<char>, name: Seq<char>) -> Seq<char> {
    joined(dest, name + ".docset"@)
}

/// The directory that holds the metadata file and the resources.
pub open spec fn contents_of(root: Seq<char>) -> Seq<char> {
    root + "/Contents"@
}

/// The directory that receives the copied documentation tree.
pub open spec fn documents_of(root: Seq<char>) -> Seq<char> {
    root + "/Contents/Resources/Documents/"@
}

/// The path of the metadata file.
pub open spec fn plist_path_of(root: Seq<char>) -> Seq<char> {
    contents_of(root) + "/info.plist"@
}

/// The path of the search index file.
pub open spec fn index_path_of(root: Seq<char>) -> Seq<char> {
    contents_of(root) + "/Resources/docset.dsidx"@
}

/// The directory whose tree is copied into the docset: the documentation
/// directory itself where its last segment is `doc`, else the directory that
/// holds it.
pub open spec fn copy_root_of(source: Seq<char>) -> Option<Seq<char>> {
    if last_segment_of(source) == "doc"@ {
        Some(source)
    } else {
        parent_of(source)
    }
}

/// The pattern that the listing pages match: the page `all.html` in each
/// directory directly below the one that holds the documentation directory.
pub open spec fn listing_pattern_of(source: Seq<char>) -> Option<Seq<char>> {
    match parent_of(source) {
        Some(dir) => Some(joined(dir, "*/all.html"@)),
        None => None,
    }
}

/// The rows of the index that a run over `pages` ends with: the rows of all
/// entries on all pages, offered to an empty index in the order of
/// extraction. A page that fails leaves no index at all.
pub open spec fn index_of(pages: Seq<PageView>) -> Result<Seq<RowView>, ExtractError> {
    match pages_extraction(pages) {
        Ok(entries) => Ok(with_rows(Seq::empty(), rows_of(entries))),
        Err(e) => Err(e),
    }
}

/// The view of a run's result.
pub open spec fn built_view(result: Result<IndexStore, ExtractError>) -> Result<
    Seq<RowView>,
    ExtractError,
> {
    match result {
        Ok(index) => Ok(index@),
        Err(e) => Err(e),
    }
}

/// Offers the row of each entry in turn to an empty index and returns the
/// index.
pub fn index_entries(entries: &Vec<Entry>) -> (index: IndexStore)
    ensures
        index@ == with_rows(Seq::empty(), rows_of(entries.deep_view())),
        index@.no_duplicates(),
{
    let ghost all = rows_of(entries.deep_view());
    let mut index = IndexStore::new();
    let mut i: usize = 0;
    assert(all.take(0) =~= Seq::<RowView>::empty());
    while i < entries.len()
        invariant
            i <= entries.len(),
            all == rows_of(entries.deep_view()),
            index@ == with_rows(Seq::empty(), all.take(i as int)),
        decreases entries.len() - i,
    {
        entries[i].insert_entry(&mut index);
        assert(all.take(i + 1).drop_last() =~= all.take(i as int));
        assert(all.take(i + 1).last() == row_of(entries[i as int]@));
        i = i + 1;
    }
    assert(all.take(i as int) =~= all);
    proof {
        lemma_with_rows_no_duplicates(Seq::empty(), all);
    }
    index
}

/// What a builder stands for in contracts.
pub struct BuilderView {
    pub name: Seq<char>,
    pub source: Seq<char>,
    pub root: Seq<char>,
    pub contents_path: Seq<char>,
    pub documents_path: Seq<char>,
}

/// The name of a docset, the documentation directory it is made from, and
/// the places of its parts. Paths are text with `/` between the segments.
#[derive(Debug)]
pub struct DocsetBuilder {
    name: String,
    source: String,
    root: String,
    contents_path: String,
    documents_path: String,
}

impl View for DocsetBuilder {
    type V = BuilderView;

    closed spec fn view(&self) -> BuilderView {
        BuilderView {
            name: self.name@,
            source: self.source@,
            root: self.root@,
            contents_path: self.contents_path@,
            documents_path: self.documents_path@,
        }
    }
}

impl DocsetBuilder {
    /// The stored paths are those that the layout fixes for the root.
    #[verifier::type_invariant]
    closed spec fn laid_out(&self) -> bool {
        &&& self.contents_path@ == contents_of(self.root@)
        &&& self.documents_path@ == documents_of(self.root@)
    }

    /// Lays out the docset called `name` below the directory `dest`, to be
    /// made from the documentation directory `source`.
    pub fn new(source: String, dest: String, name: String) -> (builder: DocsetBuilder)
        ensures
            builder@ == (BuilderView {
                name: name@,
                source: source@,
                root: root_of(dest@, name@),
                contents_path: contents_of(root_of(dest@, name@)),
                documents_path: documents_of(root_of(dest@, name@)),
            }),
    {
        let bundle = name.clone().concat(".docset");
        let root = join(dest.as_str(), bundle.as_str());
        let contents_path = root.clone().concat("/Contents");
        let documents_path = root.clone().concat("/Contents/Resources/Documents/");
        DocsetBuilder { name, source, root, contents_path, documents_path }
    }

    /// Returns the display name of the docset.
    pub fn name(&self) -> (name: &String)
        ensures
            name@ == self@.name,
    {
        &self.name
    }

    /// Returns the documentation directory.
    pub fn source(&self) -> (source: &String)
        ensures
            source@ == self@.source,
    {
        &self.source
    }

    /// Returns the root directory of the docset.
    pub fn root(&self) -> (root: &String)
        ensures
            root@ == self@.root,
    {
        &self.root
    }

    /// Returns the directory that holds the metadata file and the resources.
    pub fn contents_path(&self) -> (path: &String)
        ensures
            path@ == self@.contents_path,
            path@ == contents_of(self@.root),
    {
        proof {
            use_type_invariant(self);
        }
        &self.contents_path
    }

    /// Returns the directory that receives the copied documentation tree.
    pub fn documents_path(&self) -> (path: &String)
        ensures
            path@ == self@.documents_path,
            path@ == documents_of(self@.root),
    {
        proof {
            use_type_invariant(self);
        }
        &self.documents_path
    }

    /// Returns the path of the metadata file.
    pub fn plist_path(&self) -> (path: String)
        ensures
            path@ == plist_path_of(self@.root),
    {
        proof {
            use_type_invariant(self);
        }
        self.contents_path.clone().concat("/info.plist")
    }

    /// Returns the path of the search index file.
    pub fn index_path(&self) -> (path: String)
        ensures
            path@ == index_path_of(self@.root),
    {
        proof {
            use_type_invariant(self);
        }
        self.contents_path.clone().concat("/Resources/docset.dsidx")
    }

    /// Returns the text of the metadata file.
    pub fn plist(&self) -> (text: String)
        ensures
            text@ == plist_text(self@.name, lowercase_of(self@.name)),
    {
        let lower = lowercase(self.name.as_str());
        plist_with(self.name.as_str(), lower.as_str())
    }

    /// Builds the index of a docset from its listing pages: extracts the
    /// entries of every kind from every page, then offers them one by one to
    /// an empty index. Any page that fails makes the whole run fail.
    pub fn build(pages: &Vec<Page>) -> (result: Result<IndexStore, ExtractError>)
        ensures
            built_view(result) == index_of(pages.deep_view()),
            result matches Ok(index) ==> index@.no_duplicates(),
    {
        match collect_entries(pages) {
            Ok(entries) => Ok(index_entries(&entries)),
            Err(e) => Err(e),
        }
    }

    /// Returns the directory whose tree is to be copied into the docset, if
    /// the documentation directory determines one.
    pub fn copy_root(&self) -> (dir: Option<String>)
        ensures
            dir.deep_view() == copy_root_of(self@.source),
    {
        let last = last_segment(self.source.as_str());
        if last == String::from_str("doc") {
            Some(self.source.clone())
        } else {
            parent(self.source.as_str())
        }
    }

    /// Returns the pattern that the paths of the listing pages match, if the
    /// documentation directory lies in a directory.
    pub fn listing_pattern(&self) -> (pattern: Option<String>)
        ensures
            pattern.deep_view() == listing_pattern_of(self@.source),
    {
        match parent(self.source.as_str()) {
            Some(dir) => Some(join(dir.as_str(), "*/all.html")),
            None => None,
        }
    }
}

/// Every entry that a run finds on pages that all occur among `second`, a run
/// over `second` finds too.
proof fn lemma_entries_carry_over(first: Seq<PageView>, second: Seq<PageView>, entry: EntryView)
    requires
        forall|i: int| 0 <= i < first.len() ==> second.contains(#[trigger] first[i]),
        pages_extraction(first) is Ok,
        pages_extraction(second) is Ok,
        pages_extraction(first)->Ok_0.contains(entry),
    ensures
        pages_extraction(second)->Ok_0.contains(entry),
{
    lemma_gather_contains(first.len(), page_step(first), entry);
    let i = choose|i: int|
        0 <= i < first.len() && (#[trigger] page_step(first)(i))->Ok_0.contains(entry);
    assert(second.contains(first[i]));
    let j = choose|j: int| 0 <= j < second.len() && second[j] == first[i];
    assert(page_step(second)(j) == page_step(first)(i));
    lemma_gather_contains(second.len(), page_step(second), entry);
}

/// A run over pages that all occur among `second` succeeds if a run over
/// `second` does.
proof fn lemma_success_carries_over(first: Seq<PageView>, second: Seq<PageView>)
    requires
        forall|i: int| 0 <= i < first.len() ==> second.contains(#[trigger] first[i]),
        pages_extraction(second) is Ok,
    ensures
        pages_extraction(first) is Ok,
{
    lemma_gather_ok(second.len(), page_step(second));
    assert forall|i: int| 0 <= i < first.len() implies (#[trigger] page_step(first)(i)) is Ok by {
        assert(second.contains(first[i]));
        let j = choose|j: int| 0 <= j < second.len() && second[j] == first[i];
        assert(page_step(second)(j) == page_step(first)(i));
    }
    lemma_gather_ok(first.len(), page_step(first));
}

/// The rows of a list of entries hold a row exactly if it is the row of one
/// of the entries.
proof fn lemma_rows_of_contains(entries: Seq<EntryView>, row: RowView)
    ensures
        rows_of(entries).contains(row) <==> exists|entry: EntryView| #[trigger]
            entries.contains(entry) && row_of(entry) == row,
{
    if rows_of(entries).contains(row) {
        let i = choose|i: int| 0 <= i < rows_of(entries).len() && rows_of(entries)[i] == row;
        assert(entries.contains(entries[i]) && row_of(entries[i]) == row);
    }
    if exists|entry: EntryView| #[trigger] entries.contains(entry) && row_of(entry) == row {
        let entry = choose|entry: EntryView| #[trigger]
            entries.contains(entry) && row_of(entry) == row;
        let i = choose|i: int| 0 <= i < entries.len() && entries[i] == entry;
        assert(rows_of(entries)[i] == row);
    }
}

/// The index does not depend on the order in which the pages are taken. Two
/// runs over the same set of pages, in whatever order and however often each
/// page occurs, fail or succeed alike; where they succeed, their indexes hold
/// the same set of rows and the same number of rows.
pub proof fn lemma_index_ignores_page_order(first: Seq<PageView>, second: Seq<PageView>)
    requires
        first.to_set() == second.to_set(),
    ensures
        index_of(first) is Ok <==> index_of(second) is Ok,
        index_of(first) is Ok ==> {
            &&& index_of(first)->Ok_0.to_set() == index_of(second)->Ok_0.to_set()
            &&& index_of(first)->Ok_0.len() == index_of(second)->Ok_0.len()
        },
{
    assert forall|i: int| 0 <= i < first.len() implies second.contains(#[trigger] first[i]) by {
        assert(first.to_set().contains(first[i]));
    }
    assert forall|i: int| 0 <= i < second.len() implies first.contains(#[trigger] second[i]) by {
        assert(second.to_set().contains(second[i]));
    }
    if pages_extraction(second) is Ok {
        lemma_success_carries_over(first, second);
    }
    if pages_extraction(first) is Ok {
        lemma_success_carries_over(second, first);
        let found_first = pages_extraction(first)->Ok_0;
        let found_second = pages_extraction(second)->Ok_0;
        assert forall|row: RowView|
            rows_of(found_first).to_set().contains(row) <==> rows_of(
                found_second,
            ).to_set().contains(row) by {
            lemma_rows_of_contains(found_first, row);
            lemma_rows_of_contains(found_second, row);
            if rows_of(found_first).contains(row) {
                let entry = choose|entry: EntryView| #[trigger]
                    found_first.contains(entry) && row_of(entry) == row;
                lemma_entries_carry_over(first, second, entry);
            }
            if rows_of(found_second).contains(row) {
                let entry = choose|entry: EntryView| #[trigger]
                    found_second.contains(entry) && row_of(entry) == row;
                lemma_entries_carry_over(second, first, entry);
            }
        }
        assert(rows_of(found_first).to_set() =~= rows_of(found_second).to_set());
        lemma_fresh_index_row_set(rows_of(found_first));
        lemma_fresh_index_row_set(rows_of(found_second));
    }
}

/// Taking the pages in another order changes neither whether the run
/// succeeds nor the set of rows that its index holds.
pub proof fn lemma_index_ignores_page_reordering(first: Seq<PageView>, second: Seq<PageView>)
    requires
        first.to_multiset() == second.to_multiset(),
    ensures
        index_of(first) is Ok <==> index_of(second) is Ok,
        index_of(first) is Ok ==> {
            &&& index_of(first)->Ok_0.to_set() == index_of(second)->Ok_0.to_set()
            &&& index_of(first)->Ok_0.len() == index_of(second)->Ok_0.len()
        },
{
    lemma_reordering_keeps_members(first, second);
    lemma_index_ignores_page_order(first, second);
}

} // verus!
