//! One extracted symbol and the index row that stands for it.

use vstd::prelude::*;
use crate::index::{IndexRow, IndexStore, InsertOutcome, RowView, with_row};
use crate::kind::{lemma_persisted_type_injective, RustType};
use crate::text::{
    last_cut, last_piece, lemma_last_piece, lemma_pieces_concat, lemma_pieces_nonempty,
    lemma_single_piece, occurs_at, pieces,
};

verus! {

/// What an entry stands for in contracts.
pub struct EntryView {
    pub name: Seq<char>,
    pub kind: RustType,
    pub path: Seq<char>,
}

/// The short name of a symbol: the last segment of a name whose segments are
/// joined by `::`. A name without `::` is its own short name.
pub open spec fn short_name_of(raw: Seq<char>) -> Seq<char> {
    pieces(raw, seq![':', ':']).last()
}

/// The row that is stored for an entry: its name, the singular form of its
/// kind, and its path.
pub open spec fn row_of(entry: EntryView) -> RowView {
    (entry.name, entry.kind.persisted_text(), entry.path)
}

/// The rows that are stored for a list of entries, in the same order.
pub open spec fn rows_of(entries: Seq<EntryView>) -> Seq<RowView> {
    entries.map_values(|entry: EntryView| row_of(entry))
}

/// Two entries have the same row only if they are the same entry: the type
/// column tells the kinds apart.
pub proof fn lemma_row_identifies_entry(a: EntryView, b: EntryView)
    requires
        row_of(a) == row_of(b),
    ensures
        a == b,
{
    lemma_persisted_type_injective(a.kind, b.kind);
}

/// A name that holds no `::` is its own short name.
pub proof fn lemma_short_name_plain(name: Seq<char>)
    requires
        forall|j: int| !occurs_at(name, seq![':', ':'], j),
    ensures
        short_name_of(name) == name,
{
    lemma_single_piece(name, seq![':', ':'], 0, 0);
    assert(name.subrange(0, name.len() as int) =~= name);
}

/// The short name of a qualified name is the short name of what follows the
/// qualifier, whatever the qualifier, as long as it does not end in a colon.
pub proof fn lemma_short_name_qualified(qualifier: Seq<char>, name: Seq<char>)
    requires
        qualifier.len() == 0 || qualifier.last() != ':',
    ensures
        short_name_of(qualifier + seq![':', ':'] + name) == short_name_of(name),
{
    let sep = seq![':', ':'];
    let whole = qualifier + sep + name;
    assert forall|j: int| qualifier.len() - sep.len() < j < qualifier.len() implies !occurs_at(
        whole,
        sep,
        j,
    ) by {
        if 0 <= j {
            assert(whole.subrange(j, j + 2)[0] == qualifier.last());
        }
    }
    lemma_pieces_concat(qualifier, sep, name);
    lemma_pieces_nonempty(name, sep, 0, 0);
}

/// A short name is the end of the name it was made from and holds no `::`,
/// so that shortening it again changes nothing.
pub proof fn lemma_short_name_is_short(raw: Seq<char>)
    ensures
        short_name_of(raw).len() <= raw.len(),
        short_name_of(raw) == raw.subrange(
            raw.len() - short_name_of(raw).len(),
            raw.len() as int,
        ),
        forall|j: int| !occurs_at(short_name_of(raw), seq![':', ':'], j),
        short_name_of(short_name_of(raw)) == short_name_of(raw),
{
    let sep = seq![':', ':'];
    let short = short_name_of(raw);
    let cut = last_cut(raw, sep, 0, 0);
    lemma_last_piece(raw, sep, 0, 0);
    assert forall|j: int| !occurs_at(short, sep, j) by {
        if occurs_at(short, sep, j) {
            assert(raw.subrange(cut + j, cut + j + 2) =~= short.subrange(j, j + 2));
            assert(occurs_at(raw, sep, cut + j));
        }
    }
    lemma_short_name_plain(short);
}

/// Returns the last `::`-separated segment of `raw`.
pub fn short_name(raw: &str) -> (name: String)
    ensures
        name@ == short_name_of(raw@),
{
    proof {
        reveal_strlit("::");
    }
    assert("::"@ =~= seq![':', ':']);
    last_piece(raw, "::")
}

/// A symbol found on a listing page.
#[derive(Clone, Debug, PartialEq, Eq, Hash)]
pub struct Entry {
    name: String,
    rust_type: RustType,
    path: String,
}

impl View for Entry {
    type V = EntryView;

    closed spec fn view(&self) -> EntryView {
        EntryView { name: self.name@, kind: self.rust_type, path: self.path@ }
    }
}

impl DeepView for Entry {
    type V = EntryView;

    open spec fn deep_view(&self) -> EntryView {
        self@
    }
}

impl Entry {
    /// Makes an entry from its three parts, taken as they are.
    pub fn new(name: String, rust_type: RustType, path: String) -> (entry: Entry)
        ensures
            entry@ == (EntryView { name: name@, kind: rust_type, path: path@ }),
    {
        Entry { name, rust_type, path }
    }

    /// Returns the symbol's short name.
    pub fn name(&self) -> (name: &String)
        ensures
            name@ == self@.name,
    {
        &self.name
    }

    /// Returns the symbol's kind.
    pub fn rust_type(&self) -> (kind: RustType)
        ensures
            kind == self@.kind,
    {
        self.rust_type
    }

    /// Returns the path of the symbol's page below the document root.
    pub fn path(&self) -> (path: &String)
        ensures
            path@ == self@.path,
    {
        &self.path
    }

    /// Returns the row that the index stores for this entry.
    pub fn row(&self) -> (row: IndexRow)
        ensures
            row@ == row_of(self@),
    {
        IndexRow {
            name: self.name.clone(),
            entry_type: String::from_str(self.rust_type.persisted_type()),
            path: self.path.clone(),
        }
    }

    /// Stores this entry's row in `index`, unless the same row is there
    /// already.
    pub fn insert_entry(&self, index: &mut IndexStore) -> (outcome: InsertOutcome)
        ensures
            final(index)@ == with_row(old(index)@, row_of(self@)),
            final(index)@.no_duplicates(),
            outcome == if old(index)@.contains(row_of(self@)) {
                InsertOutcome::DuplicateIgnored
            } else {
                InsertOutcome::Inserted
            },
    {
        index.insert(self.row())
    }
}

} // verus!
