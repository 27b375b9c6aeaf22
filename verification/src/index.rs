//! The search index: a list of rows in which no row occurs twice.

use vstd::prelude::*;

verus! {

/// What a row stands for in contracts: its name, type and path columns.
pub type RowView = (Seq<char>, Seq<char>, Seq<char>);

/// One row of the search index.
#[derive(Clone, Debug, PartialEq, Eq, Hash)]
pub struct IndexRow {
    pub name: String,
    pub entry_type: String,
    pub path: String,
}

impl View for IndexRow {
    type V = RowView;

    open spec fn view(&self) -> RowView {
        (self.name@, self.entry_type@, self.path@)
    }
}

impl DeepView for IndexRow {
    type V = RowView;

    open spec fn deep_view(&self) -> RowView {
        self@
    }
}

/// The statement that creates the table of the search index file.
pub const CREATE_TABLE_SQL: &'static str =
    "CREATE TABLE searchIndex(id INTEGER PRIMARY KEY, name TEXT, type TEXT, path TEXT);";

/// The statement that forbids two rows with the same name, type and path in
/// the search index file.
pub const CREATE_UNIQUE_SQL: &'static str =
    "CREATE UNIQUE INDEX anchor ON searchIndex (name, type, path);";

/// The statement that writes one row to the search index file. Its three
/// parameters are the row's name, type and path. A row that is there already
/// is passed over.
pub const INSERT_ROW_SQL: &'static str =
    "INSERT OR IGNORE INTO searchIndex (name, type, path) VALUES (?1, ?2, ?3)";

/// What became of a row that was handed to the index.
#[derive(Clone, Copy, Debug, PartialEq, Eq, Structural, Hash)]
pub enum InsertOutcome {
    /// The row was new and now stands last in the index.
    Inserted,
    /// An identical row was already there; the index is unchanged.
    DuplicateIgnored,
    /// The row could not be written. The index in memory never answers so;
    /// the file that it is written to may.
    Failed,
}

impl InsertOutcome {
    /// Reads the answer of the search index file to the writing of one row:
    /// the number of rows that the statement changed, or nothing where the
    /// statement failed. A row that was passed over as a duplicate changes
    /// none and is no failure.
    pub fn from_changes(changed: Option<usize>) -> (outcome: InsertOutcome)
        ensures
            outcome == match changed {
                None => InsertOutcome::Failed,
                Some(n) => if n == 0 {
                    InsertOutcome::DuplicateIgnored
                } else {
                    InsertOutcome::Inserted
                },
            },
    {
        match changed {
            None => InsertOutcome::Failed,
            Some(n) => if n == 0 {
                InsertOutcome::DuplicateIgnored
            } else {
                InsertOutcome::Inserted
            },
        }
    }
}

/// The rows after `row` was offered to an index that held `rows`.
pub open spec fn with_row(rows: Seq<RowView>, row: RowView) -> Seq<RowView> {
    if rows.contains(row) {
        rows
    } else {
        rows.push(row)
    }
}

/// The rows after each of `offered` was offered in turn to an index that held
/// `rows`.
pub open spec fn with_rows(rows: Seq<RowView>, offered: Seq<RowView>) -> Seq<RowView>
    decreases offered.len(),
{
    if offered.len() == 0 {
        rows
    } else {
        with_row(with_rows(rows, offered.drop_last()), offered.last())
    }
}

/// The search index. Rows stand in the order in which they first arrived.
#[derive(Debug)]
pub struct IndexStore {
    rows: Vec<IndexRow>,
}

impl View for IndexStore {
    type V = Seq<RowView>;

    closed spec fn view(&self) -> Seq<RowView> {
        self.rows.deep_view()
    }
}

impl IndexStore {
    /// The uniqueness rule of the index: no two rows agree in all three
    /// columns.
    #[verifier::type_invariant]
    closed spec fn unique(&self) -> bool {
        self.rows.deep_view().no_duplicates()
    }

    /// Creates an index without rows.
    pub fn new() -> (index: IndexStore)
        ensures
            index@ == Seq::<RowView>::empty(),
    {
        let index = IndexStore { rows: Vec::new() };
        assert(index@ =~= Seq::<RowView>::empty());
        index
    }

    /// Returns the number of rows.
    pub fn len(&self) -> (n: usize)
        ensures
            n == self@.len(),
            self@.no_duplicates(),
    {
        proof {
            use_type_invariant(self);
        }
        self.rows.len()
    }

    /// Returns the rows in insertion order.
    pub fn rows(&self) -> (rows: &Vec<IndexRow>)
        ensures
            rows.deep_view() == self@,
            self@.no_duplicates(),
    {
        proof {
            use_type_invariant(self);
        }
        &self.rows
    }

    /// Tells whether the index holds a row equal to `row` in all columns.
    pub fn contains(&self, row: &IndexRow) -> (found: bool)
        ensures
            found == self@.contains(row@),
    {
        let mut i: usize = 0;
        while i < self.rows.len()
            invariant
                i <= self.rows.len(),
                forall|j: int| 0 <= j < i ==> self@[j] != row@,
            decreases self.rows.len() - i,
        {
            if same_row(&self.rows[i], row) {
                assert(self@[i as int] == row@);
                return true;
            }
            i = i + 1;
        }
        false
    }

    /// Adds `row` unless an identical row is present. A duplicate is no
    /// error: the index stays as it was.
    pub fn insert(&mut self, row: IndexRow) -> (outcome: InsertOutcome)
        ensures
            final(self)@ == with_row(old(self)@, row@),
            final(self)@.no_duplicates(),
            outcome == if old(self)@.contains(row@) {
                InsertOutcome::DuplicateIgnored
            } else {
                InsertOutcome::Inserted
            },
    {
        proof {
            use_type_invariant(&*self);
        }
        if self.contains(&row) {
            InsertOutcome::DuplicateIgnored
        } else {
            let ghost before = self@;
            let mut taken = IndexStore::new();
            core::mem::swap(self, &mut taken);
            let mut rows = taken.rows;
            rows.push(row);
            assert(rows.deep_view() =~= before.push(row@));
            proof {
                lemma_with_row_no_duplicates(before, row@);
            }
            *self = IndexStore { rows };
            InsertOutcome::Inserted
        }
    }
}

/// Compares two rows column by column.
fn same_row(a: &IndexRow, b: &IndexRow) -> (same: bool)
    ensures
        same == (a@ == b@),
{
    a.name == b.name && a.entry_type == b.entry_type && a.path == b.path
}

/// Offering a row keeps the index free of duplicates.
pub proof fn lemma_with_row_no_duplicates(rows: Seq<RowView>, row: RowView)
    requires
        rows.no_duplicates(),
    ensures
        with_row(rows, row).no_duplicates(),
{
}

/// Offering a row a second time changes nothing.
pub proof fn lemma_with_row_idempotent(rows: Seq<RowView>, row: RowView)
    ensures
        with_row(with_row(rows, row), row) == with_row(rows, row),
{
    if !rows.contains(row) {
        assert(rows.push(row)[rows.len() as int] == row);
    }
}

/// An empty index that is offered the same row twice ends with exactly that
/// one row.
pub proof fn lemma_same_row_twice_gives_one(row: RowView)
    ensures
        with_rows(Seq::empty(), seq![row, row]) == seq![row],
        with_rows(Seq::empty(), seq![row, row]).len() == 1,
{
    let empty = Seq::<RowView>::empty();
    let twice = seq![row, row];
    assert(twice.drop_last() =~= seq![row]);
    assert(seq![row].drop_last() =~= empty);
    assert(with_rows(empty, empty) == empty);
    assert(with_rows(empty, seq![row]) == with_row(empty, row));
    assert(with_row(empty, row) =~= seq![row]);
    assert(seq![row][0] == row);
    assert(with_rows(empty, twice) == with_row(seq![row], row));
}

/// Offering any number of rows keeps the index free of duplicates.
pub proof fn lemma_with_rows_no_duplicates(rows: Seq<RowView>, offered: Seq<RowView>)
    requires
        rows.no_duplicates(),
    ensures
        with_rows(rows, offered).no_duplicates(),
    decreases offered.len(),
{
    if offered.len() > 0 {
        lemma_with_rows_no_duplicates(rows, offered.drop_last());
        lemma_with_row_no_duplicates(with_rows(rows, offered.drop_last()), offered.last());
    }
}

/// The index ends up holding a row exactly if it held the row before or the
/// row was among those offered.
pub proof fn lemma_with_rows_contains(rows: Seq<RowView>, offered: Seq<RowView>, row: RowView)
    ensures
        with_rows(rows, offered).contains(row) <==> rows.contains(row) || offered.contains(row),
    decreases offered.len(),
{
    if offered.len() > 0 {
        let front = offered.drop_last();
        let last = offered.last();
        let before = with_rows(rows, front);
        lemma_with_rows_contains(rows, front, row);
        if offered.contains(row) {
            let i = choose|i: int| 0 <= i < offered.len() && offered[i] == row;
            if i < front.len() {
                assert(front[i] == row);
            }
        }
        if front.contains(row) {
            let i = choose|i: int| 0 <= i < front.len() && front[i] == row;
            assert(offered[i] == row);
        }
        assert(offered[offered.len() - 1] == last);
        if !before.contains(last) {
            assert(before.push(last)[before.len() as int] == last);
            if before.contains(row) {
                let i = choose|i: int| 0 <= i < before.len() && before[i] == row;
                assert(before.push(last)[i] == row);
            }
        }
    }
}

/// The set of rows that an empty index ends with is the set of rows offered,
/// and the index holds each of them once.
pub proof fn lemma_fresh_index_row_set(offered: Seq<RowView>)
    ensures
        with_rows(Seq::empty(), offered).to_set() == offered.to_set(),
        with_rows(Seq::empty(), offered).len() == offered.to_set().len(),
{
    let empty = Seq::<RowView>::empty();
    let rows = with_rows(empty, offered);
    assert forall|row: RowView| rows.to_set().contains(row) <==> offered.to_set().contains(
        row,
    ) by {
        lemma_with_rows_contains(empty, offered, row);
    }
    assert(rows.to_set() =~= offered.to_set());
    lemma_with_rows_no_duplicates(empty, offered);
    rows.unique_seq_to_set();
}

/// The final rows do not depend on the order of arrival: two runs that offer
/// the same set of rows to an empty index, in whatever order and however
/// often, end with the same set of rows and the same number of rows.
pub proof fn lemma_row_set_ignores_order(first: Seq<RowView>, second: Seq<RowView>)
    requires
        first.to_set() == second.to_set(),
    ensures
        with_rows(Seq::empty(), first).to_set() == with_rows(Seq::empty(), second).to_set(),
        with_rows(Seq::empty(), first).len() == with_rows(Seq::empty(), second).len(),
{
    lemma_fresh_index_row_set(first);
    lemma_fresh_index_row_set(second);
}

/// A list and a reordering of it have the same members.
pub proof fn lemma_reordering_keeps_members<A>(first: Seq<A>, second: Seq<A>)
    requires
        first.to_multiset() == second.to_multiset(),
    ensures
        first.to_set() == second.to_set(),
{
    first.to_multiset_ensures();
    second.to_multiset_ensures();
    assert forall|a: A| first.to_set().contains(a) <==> second.to_set().contains(a) by {
        assert(first.contains(a) <==> first.to_multiset().count(a) > 0);
        assert(second.contains(a) <==> second.to_multiset().count(a) > 0);
    }
    assert(first.to_set() =~= second.to_set());
}

/// A reordering of the rows offered leaves the final set of rows unchanged.
pub proof fn lemma_row_set_ignores_reordering(first: Seq<RowView>, second: Seq<RowView>)
    requires
        first.to_multiset() == second.to_multiset(),
    ensures
        with_rows(Seq::empty(), first).to_set() == with_rows(Seq::empty(), second).to_set(),
        with_rows(Seq::empty(), first).len() == with_rows(Seq::empty(), second).len(),
{
    lemma_reordering_keeps_members(first, second);
    lemma_row_set_ignores_order(first, second);
}

} // verus!
