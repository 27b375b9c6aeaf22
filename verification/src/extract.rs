//! Finding the symbols of one kind on one listing page.

use vstd::prelude::*;
use vstd::utf8::{decode_utf8, encode_utf8, encode_utf8_decode_utf8, valid_utf8};
use select::document::Document;
use select::predicate::{Class, Name, Predicate};
use crate::entry::{short_name, short_name_of, Entry, EntryView};
use crate::kind::RustType;
use crate::text::{
    lemma_pieces_concat, lemma_pieces_nonempty, lemma_single_piece, occurs_at, pieces, split,
};

verus! {

/// What an anchor stands for in contracts: one item for each node below it,
/// in document order, which is the node's text where the node is text; and
/// the target of its link, where it has one.
pub type AnchorView = (Seq<Option<Seq<char>>>, Option<Seq<char>>);

/// A link element found on a page, reduced to what the index needs of it.
#[derive(Clone, Debug, PartialEq, Eq, Hash)]
pub struct Anchor {
    /// One item for each node below the element, in document order: the
    /// node's text where the node is text, nothing where it is an element or
    /// a comment.
    pub texts: Vec<Option<String>>,
    /// The value of the element's link target, where it has one.
    pub href: Option<String>,
}

impl DeepView for Anchor {
    type V = AnchorView;

    open spec fn deep_view(&self) -> AnchorView {
        (self.texts.deep_view(), self.href.deep_view())
    }
}

/// The greatest number of bytes of a page that the library hands to the
/// document parser: a third of 2^31. The parser cannot keep a piece of text
/// that needs more than 2^31 bytes, and it may write three bytes where the
/// page has one.
pub const MAX_PAGE_BYTES: usize = 0x2AAA_AAAA;

/// Why a page yields no entries.
#[derive(Clone, Copy, Debug, PartialEq, Eq, Structural, Hash)]
pub enum ExtractError {
    /// The page's path names no directory above the page.
    NoModuleSegment,
    /// The page holds more bytes than the document parser takes.
    TooLarge,
    /// The page's bytes are no text: they are not valid UTF-8.
    Unreadable,
    /// A link under the marker holds no text.
    MissingText,
    /// A link under the marker has no target.
    MissingHref,
}

/// What a page stands for in contracts.
pub struct PageView {
    pub path: Seq<char>,
    pub content: Seq<u8>,
}

/// A listing page as read from the documentation tree.
#[derive(Clone, Debug, PartialEq, Eq, Hash)]
pub struct Page {
    /// Where the page lies, with `/` between the segments.
    pub path: String,
    /// The bytes of the page.
    pub content: Vec<u8>,
}

impl DeepView for Page {
    type V = PageView;

    open spec fn deep_view(&self) -> PageView {
        PageView { path: self.path@, content: self.content@ }
    }
}

/// What extraction yields: a list of entries, or the reason there is none.
pub type Extracted = Result<Seq<EntryView>, ExtractError>;

/// The results of `step(0)` to `step(n - 1)` joined in that order, or the
/// error of the first step that fails.
pub open spec fn gather(n: nat, step: spec_fn(int) -> Extracted) -> Extracted
    decreases n,
{
    if n == 0 {
        Ok(Seq::empty())
    } else {
        match gather((n - 1) as nat, step) {
            Err(e) => Err(e),
            Ok(front) => match step(n - 1) {
                Err(e) => Err(e),
                Ok(more) => Ok(front + more),
            },
        }
    }
}

/// Once a step has failed, later steps no longer matter.
pub proof fn lemma_gather_error_persists(k: nat, n: nat, step: spec_fn(int) -> Extracted)
    requires
        k <= n,
        gather(k, step) is Err,
    ensures
        gather(n, step) == gather(k, step),
    decreases n,
{
    if k < n {
        lemma_gather_error_persists(k, (n - 1) as nat, step);
    }
}

/// The steps succeed together exactly if each of them succeeds.
pub proof fn lemma_gather_ok(n: nat, step: spec_fn(int) -> Extracted)
    ensures
        gather(n, step) is Ok <==> forall|i: int| 0 <= i < n ==> (#[trigger] step(i)) is Ok,
    decreases n,
{
    if n > 0 {
        lemma_gather_ok((n - 1) as nat, step);
    }
}

/// What the steps yield together holds an entry exactly if one of the steps
/// yields it.
pub proof fn lemma_gather_contains(n: nat, step: spec_fn(int) -> Extracted, entry: EntryView)
    requires
        gather(n, step) is Ok,
    ensures
        gather(n, step)->Ok_0.contains(entry) <==> exists|i: int|
            0 <= i < n && (#[trigger] step(i))->Ok_0.contains(entry),
    decreases n,
{
    if n > 0 {
        let m = (n - 1) as nat;
        let front = gather(m, step)->Ok_0;
        let more = step(n - 1)->Ok_0;
        lemma_gather_contains(m, step, entry);
        if (front + more).contains(entry) {
            let j = choose|j: int| 0 <= j < (front + more).len() && (front + more)[j] == entry;
            if j < front.len() {
                assert(front[j] == entry);
            } else {
                assert(more[j - front.len()] == entry);
                assert(step(n - 1)->Ok_0.contains(entry));
            }
        }
        if front.contains(entry) {
            let j = choose|j: int| 0 <= j < front.len() && front[j] == entry;
            assert((front + more)[j] == entry);
        }
        if more.contains(entry) {
            let j = choose|j: int| 0 <= j < more.len() && more[j] == entry;
            assert((front + more)[front.len() + j] == entry);
        }
    }
}

/// The name of the directory that holds the page: the segment before the
/// last `/` of the page's path.
pub open spec fn module_segment_of(path: Seq<char>) -> Option<Seq<char>> {
    let parts = pieces(path, seq!['/']);
    if parts.len() >= 2 {
        Some(parts[parts.len() - 2])
    } else {
        None
    }
}

/// Whether any of the nodes is text.
pub open spec fn has_text(nodes: Seq<Option<Seq<char>>>) -> bool {
    exists|i: int| 0 <= i < nodes.len() && (#[trigger] nodes[i]) is Some
}

/// The text content of a list of nodes: the texts of those that are text,
/// joined in order.
pub open spec fn text_content(nodes: Seq<Option<Seq<char>>>) -> Seq<char>
    decreases nodes.len(),
{
    if nodes.len() == 0 {
        Seq::empty()
    } else {
        text_content(nodes.drop_last()) + match nodes.last() {
            Some(text) => text,
            None => Seq::empty(),
        }
    }
}

/// The entry that one anchor gives: its name is the short form of the
/// anchor's text content, its path the link target below the module's
/// directory. An anchor without any text below it gives none, nor does one
/// without a target.
pub open spec fn entry_of(anchor: AnchorView, prefix: Seq<char>, kind: RustType) -> Result<
    EntryView,
    ExtractError,
> {
    if !has_text(anchor.0) {
        Err(ExtractError::MissingText)
    } else {
        match anchor.1 {
            None => Err(ExtractError::MissingHref),
            Some(href) => Ok(
                EntryView {
                    name: short_name_of(text_content(anchor.0)),
                    kind,
                    path: prefix + seq!['/'] + href,
                },
            ),
        }
    }
}

/// The step that turns the anchor at index `i` into a list of one entry.
pub open spec fn anchor_step(anchors: Seq<AnchorView>, prefix: Seq<char>, kind: RustType)
    -> spec_fn(int) -> Extracted {
    |i: int|
        match entry_of(anchors[i], prefix, kind) {
            Err(e) => Err(e),
            Ok(entry) => Ok(seq![entry]),
        }
}

/// The entries that a list of anchors gives, one for each in order, or the
/// error of the first anchor that gives none.
pub open spec fn entries_of(anchors: Seq<AnchorView>, prefix: Seq<char>, kind: RustType)
    -> Extracted {
    gather(anchors.len(), anchor_step(anchors, prefix, kind))
}

/// What the document parser finds in the text of a page: one pair for each
/// element named `tag` that lies below an element of class `class`, in
/// document order. A pair holds, for each node below the element in document
/// order, the node's text where the node is a text node; and the value of the
/// element's attribute `attr`, where it has one.
pub uninterp spec fn selected_nodes(
    html: Seq<char>,
    class: Seq<char>,
    tag: Seq<char>,
    attr: Seq<char>,
) -> Seq<(Seq<Option<Seq<char>>>, Option<Seq<char>>)>;

/// The element name of a link.
pub open spec fn link_tag() -> Seq<char> {
    seq!['a']
}

/// The attribute that holds a link's target.
pub open spec fn target_attr() -> Seq<char> {
    seq!['h', 'r', 'e', 'f']
}

/// The entries of one kind on one page: one for each link below an element
/// that carries the kind's marker, in document order. The page must lie in a
/// directory, must not be longer than the parser takes, and its bytes must be
/// text.
pub open spec fn extraction(path: Seq<char>, content: Seq<u8>, kind: RustType) -> Extracted {
    match module_segment_of(path) {
        None => Err(ExtractError::NoModuleSegment),
        Some(prefix) => if content.len() > MAX_PAGE_BYTES {
            Err(ExtractError::TooLarge)
        } else if valid_utf8(content) {
            entries_of(
                selected_nodes(
                    decode_utf8(content),
                    kind.marker_text(),
                    link_tag(),
                    target_attr(),
                ),
                prefix,
                kind,
            )
        } else {
            Err(ExtractError::Unreadable)
        },
    }
}

/// The step that extracts the kind at index `k` of the taxonomy from a page.
pub open spec fn kind_step(page: PageView) -> spec_fn(int) -> Extracted {
    |k: int| extraction(page.path, page.content, RustType::all_kinds()[k])
}

/// The entries of every kind on one page, kind after kind in the order of the
/// taxonomy.
pub open spec fn page_extraction(page: PageView) -> Extracted {
    gather(RustType::all_kinds().len(), kind_step(page))
}

/// The step that extracts every kind from the page at index `p`.
pub open spec fn page_step(pages: Seq<PageView>) -> spec_fn(int) -> Extracted {
    |p: int| page_extraction(pages[p])
}

/// The entries of every kind on every page, page after page.
pub open spec fn pages_extraction(pages: Seq<PageView>) -> Extracted {
    gather(pages.len(), page_step(pages))
}

/// A page that lies in a directory has the name of that directory as its
/// module segment, whatever stands above the directory.
pub proof fn lemma_module_segment(above: Seq<char>, module: Seq<char>, file: Seq<char>)
    requires
        !module.contains('/'),
        !file.contains('/'),
    ensures
        module_segment_of(module + seq!['/'] + file) == Some(module),
        module_segment_of(above + seq!['/'] + module + seq!['/'] + file) == Some(module),
{
    let sep = seq!['/'];
    let page = module + sep + file;
    assert forall|j: int| !occurs_at(module, sep, j) by {
        if occurs_at(module, sep, j) {
            assert(module.subrange(j, j + 1)[0] == '/');
            assert(module[j] == '/');
        }
    }
    assert forall|j: int| !occurs_at(file, sep, j) by {
        if occurs_at(file, sep, j) {
            assert(file.subrange(j, j + 1)[0] == '/');
            assert(file[j] == '/');
        }
    }
    lemma_single_piece(module, sep, 0, 0);
    lemma_single_piece(file, sep, 0, 0);
    assert(module.subrange(0, module.len() as int) =~= module);
    assert(file.subrange(0, file.len() as int) =~= file);
    lemma_pieces_concat(module, sep, file);
    assert(pieces(page, sep) =~= seq![module, file]);
    lemma_pieces_concat(above, sep, page);
    lemma_pieces_nonempty(above, sep, 0, 0);
    assert(above + sep + module + sep + file =~= above + sep + page);
    let parts = pieces(above, sep) + pieces(page, sep);
    assert(parts[parts.len() - 2] == module);
}

/// A page without any link below the kind's marker yields no entry and no
/// error.
pub proof fn lemma_empty_listing(path: Seq<char>, content: Seq<u8>, kind: RustType)
    requires
        module_segment_of(path) is Some,
        content.len() <= MAX_PAGE_BYTES,
        valid_utf8(content),
        selected_nodes(decode_utf8(content), kind.marker_text(), link_tag(), target_attr())
            == Seq::<AnchorView>::empty(),
    ensures
        extraction(path, content, kind) == Ok::<Seq<EntryView>, ExtractError>(Seq::empty()),
{
}

/// A page in the directory `module` whose only link below the kind's marker
/// holds the nodes `nodes`, some of them text, and leads to `href` yields one
/// entry: its name is the short form of the link's text content, and its path
/// is `href` below `module`.
pub proof fn lemma_single_link(
    above: Seq<char>,
    module: Seq<char>,
    file: Seq<char>,
    content: Seq<u8>,
    kind: RustType,
    nodes: Seq<Option<Seq<char>>>,
    href: Seq<char>,
)
    requires
        !module.contains('/'),
        !file.contains('/'),
        content.len() <= MAX_PAGE_BYTES,
        valid_utf8(content),
        has_text(nodes),
        selected_nodes(decode_utf8(content), kind.marker_text(), link_tag(), target_attr())
            == seq![(nodes, Some(href))],
    ensures
        extraction(above + seq!['/'] + module + seq!['/'] + file, content, kind) == Ok::<
            Seq<EntryView>,
            ExtractError,
        >(
            seq![
                EntryView {
                    name: short_name_of(text_content(nodes)),
                    kind,
                    path: module + seq!['/'] + href,
                },
            ],
        ),
{
    lemma_module_segment(above, module, file);
    let anchors = seq![(nodes, Some(href))];
    let step = anchor_step(anchors, module, kind);
    let entry = EntryView {
        name: short_name_of(text_content(nodes)),
        kind,
        path: module + seq!['/'] + href,
    };
    assert(gather(0, step) == Ok::<Seq<EntryView>, ExtractError>(Seq::empty()));
    assert(step(0) == Ok::<Seq<EntryView>, ExtractError>(seq![entry]));
    assert(Seq::<EntryView>::empty() + seq![entry] =~= seq![entry]);
    assert(gather(1, step) == Ok::<Seq<EntryView>, ExtractError>(seq![entry]));
}

/// The view of an extraction result.
pub open spec fn extracted_view(result: Result<Vec<Entry>, ExtractError>) -> Extracted {
    match result {
        Ok(entries) => Ok(entries.deep_view()),
        Err(e) => Err(e),
    }
}

/// Returns the name of the directory that holds the page at `path`.
pub fn module_segment(path: &str) -> (segment: Option<String>)
    ensures
        segment.deep_view() == module_segment_of(path@),
{
    proof {
        reveal_strlit("/");
    }
    assert("/"@ =~= seq!['/']);
    let mut parts = split(path, "/");
    let ghost all = parts.deep_view();
    if parts.len() < 2 {
        return None;
    }
    parts.pop();
    let segment = parts.pop();
    assert(segment.unwrap()@ == all[all.len() - 2]);
    segment
}

/// Returns the text content of a link, given the nodes below it, or nothing
/// where none of the nodes is text.
pub fn anchor_text(nodes: &Vec<Option<String>>) -> (text: Option<String>)
    ensures
        text.deep_view() == if has_text(nodes.deep_view()) {
            Some(text_content(nodes.deep_view()))
        } else {
            None::<Seq<char>>
        },
{
    let ghost views = nodes.deep_view();
    let mut text = String::new();
    let mut found = false;
    let mut i: usize = 0;
    assert(views.take(0) =~= Seq::<Option<Seq<char>>>::empty());
    while i < nodes.len()
        invariant
            i <= nodes.len(),
            views == nodes.deep_view(),
            text@ == text_content(views.take(i as int)),
            found == has_text(views.take(i as int)),
        decreases nodes.len() - i,
    {
        let ghost before = views.take(i as int);
        let ghost after = views.take(i + 1);
        assert(after.drop_last() =~= before);
        assert(after.last() == nodes[i as int].deep_view());
        proof {
            if has_text(after) {
                let j = choose|j: int| 0 <= j < after.len() && (#[trigger] after[j]) is Some;
                if j < i {
                    assert(before[j] is Some);
                }
            }
            if has_text(before) {
                let j = choose|j: int| 0 <= j < before.len() && (#[trigger] before[j]) is Some;
                assert(after[j] is Some);
            }
            if nodes[i as int] is Some {
                assert(after[i as int] is Some);
            }
        }
        match &nodes[i] {
            Some(part) => {
                text.append(part.as_str());
                found = true;
            },
            None => {
                assert(text@ + Seq::<char>::empty() =~= text@);
            },
        }
        i = i + 1;
    }
    assert(views.take(i as int) =~= views);
    if found {
        Some(text)
    } else {
        None
    }
}

/// Turns the anchors found under a kind's marker into entries of that kind.
/// Fails at the first anchor that holds no text or lacks its link target.
pub fn entries_from_anchors(anchors: &Vec<Anchor>, prefix: &str, kind: RustType) -> (result:
    Result<Vec<Entry>, ExtractError>)
    ensures
        extracted_view(result) == entries_of(anchors.deep_view(), prefix@, kind),
{
    let ghost views = anchors.deep_view();
    let ghost step = anchor_step(views, prefix@, kind);
    let mut entries: Vec<Entry> = Vec::new();
    let mut i: usize = 0;
    assert(entries.deep_view() =~= Seq::<EntryView>::empty());
    while i < anchors.len()
        invariant
            i <= anchors.len(),
            views == anchors.deep_view(),
            step == anchor_step(views, prefix@, kind),
            gather(i as nat, step) == Ok::<Seq<EntryView>, ExtractError>(entries.deep_view()),
        decreases anchors.len() - i,
    {
        let anchor = &anchors[i];
        assert(views[i as int] == anchor.deep_view());
        let text = match anchor_text(&anchor.texts) {
            Some(text) => text,
            None => {
                proof {
                    lemma_gather_error_persists((i + 1) as nat, views.len(), step);
                }
                return Err(ExtractError::MissingText);
            },
        };
        let href = match &anchor.href {
            Some(href) => href,
            None => {
                proof {
                    lemma_gather_error_persists((i + 1) as nat, views.len(), step);
                }
                return Err(ExtractError::MissingHref);
            },
        };
        let name = short_name(text.as_str());
        let path = String::from_str(prefix).concat("/").concat(href.as_str());
        proof {
            reveal_strlit("/");
        }
        assert("/"@ =~= seq!['/']);
        let entry = Entry::new(name, kind, path);
        let ghost before = entries.deep_view();
        entries.push(entry);
        assert(entries.deep_view() =~= before + seq![entry@]);
        i = i + 1;
    }
    Ok(entries)
}

/// Calls `std::str::from_utf8`. As the standard library documents it, the
/// bytes come back as text exactly where they are valid UTF-8, and the text
/// is made of the very same bytes.
#[verifier::external_body]
fn as_text(bytes: &[u8]) -> (text: Option<&str>)
    ensures
        text is Some <==> valid_utf8(bytes@),
        text matches Some(t) ==> encode_utf8(t@) == bytes@,
{
    std::str::from_utf8(bytes).ok()
}

/// Parses the text with `select::document::Document::from` and calls
/// `Document::find` with the predicate `Class(class).descendant(Name(tag))`,
/// then reads each node found with `Node::descendants`, `Node::as_text` and
/// `Node::attr`. Nothing is proved of the parser. The contract claims only
/// that the outcome depends on the four arguments alone, and gives it a
/// name. The parser panics where a piece of text that it keeps needs more
/// than 2^31 bytes: its buffers grow to the next power of two, which must fit
/// in 32 bits. It may keep three bytes for one byte of the page, since it
/// writes U+FFFD for each NUL; so a page of more than a third of 2^31 bytes
/// is left out. It walks nested elements by recursion: a page nested too deep
/// for the stack ends the process, as one too large for the memory does.
#[verifier::external_body]
fn select_nodes(html: &str, class: &str, tag: &str, attr: &str) -> (found: Vec<Anchor>)
    requires
        encode_utf8(html@).len() <= MAX_PAGE_BYTES,
    ensures
        found.deep_view() == selected_nodes(html@, class@, tag@, attr@),
{
    let document = Document::from(html);
    let nodes = document.find(Class(class).descendant(Name(tag)));
    nodes.map(
        |node|
            Anchor {
                texts: node.descendants().map(|below| below.as_text().map(String::from)).collect(),
                href: node.attr(attr).map(String::from),
            },
    ).collect()
}

/// Extracts the entries of one kind from one listing page. `path` is the
/// page's location, with `/` between its segments; `content` holds the bytes
/// of the page.
pub fn extract_entries(path: &String, content: &[u8], rust_type: &RustType) -> (result: Result<
    Vec<Entry>,
    ExtractError,
>)
    ensures
        extracted_view(result) == extraction(path@, content@, *rust_type),
{
    let prefix = match module_segment(path.as_str()) {
        Some(prefix) => prefix,
        None => {
            return Err(ExtractError::NoModuleSegment);
        },
    };
    if content.len() > MAX_PAGE_BYTES {
        return Err(ExtractError::TooLarge);
    }
    let html = match as_text(content) {
        Some(html) => html,
        None => {
            return Err(ExtractError::Unreadable);
        },
    };
    proof {
        encode_utf8_decode_utf8(html@);
        reveal_strlit("a");
        reveal_strlit("href");
    }
    assert("a"@ =~= link_tag());
    assert("href"@ =~= target_attr());
    let anchors = select_nodes(html, rust_type.marker(), "a", "href");
    entries_from_anchors(&anchors, prefix.as_str(), *rust_type)
}

/// Extracts the entries of every kind from one listing page.
pub fn extract_page(page: &Page) -> (result: Result<Vec<Entry>, ExtractError>)
    ensures
        extracted_view(result) == page_extraction(page.deep_view()),
{
    let kinds = RustType::all();
    let ghost step = kind_step(page.deep_view());
    let mut entries: Vec<Entry> = Vec::new();
    let mut k: usize = 0;
    assert(entries.deep_view() =~= Seq::<EntryView>::empty());
    while k < kinds.len()
        invariant
            k <= kinds.len(),
            kinds@ == RustType::all_kinds(),
            step == kind_step(page.deep_view()),
            gather(k as nat, step) == Ok::<Seq<EntryView>, ExtractError>(entries.deep_view()),
        decreases kinds.len() - k,
    {
        match extract_entries(&page.path, page.content.as_slice(), &kinds[k]) {
            Ok(mut found) => {
                let ghost before = entries.deep_view();
                let ghost more = found.deep_view();
                entries.append(&mut found);
                assert(entries.deep_view() =~= before + more);
            },
            Err(e) => {
                proof {
                    lemma_gather_error_persists((k + 1) as nat, kinds@.len(), step);
                }
                return Err(e);
            },
        }
        k = k + 1;
    }
    Ok(entries)
}

/// Extracts the entries of every kind from every page and returns them in one
/// list. Fails with the error of the first page and kind that fail.
pub fn collect_entries(pages: &Vec<Page>) -> (result: Result<Vec<Entry>, ExtractError>)
    ensures
        extracted_view(result) == pages_extraction(pages.deep_view()),
{
    let ghost step = page_step(pages.deep_view());
    let mut entries: Vec<Entry> = Vec::new();
    let mut p: usize = 0;
    assert(entries.deep_view() =~= Seq::<EntryView>::empty());
    while p < pages.len()
        invariant
            p <= pages.len(),
            step == page_step(pages.deep_view()),
            gather(p as nat, step) == Ok::<Seq<EntryView>, ExtractError>(entries.deep_view()),
        decreases pages.len() - p,
    {
        assert(pages.deep_view()[p as int] == pages[p as int].deep_view());
        match extract_page(&pages[p]) {
            Ok(mut found) => {
                let ghost before = entries.deep_view();
                let ghost more = found.deep_view();
                entries.append(&mut found);
                assert(entries.deep_view() =~= before + more);
            },
            Err(e) => {
                proof {
                    lemma_gather_error_persists((p + 1) as nat, pages.deep_view().len(), step);
                }
                return Err(e);
            },
        }
        p = p + 1;
    }
    Ok(entries)
}

} // verus!
