use dashgen::index::{IndexRow, IndexStore, InsertOutcome};
use std::collections::BTreeSet;

fn row(name: &str, entry_type: &str, path: &str) -> IndexRow {
    IndexRow { name: name.to_string(), entry_type: entry_type.to_string(), path: path.to_string() }
}

fn row_set(index: &IndexStore) -> BTreeSet<(String, String, String)> {
    index
        .rows()
        .iter()
        .map(|row| (row.name.clone(), row.entry_type.clone(), row.path.clone()))
        .collect()
}

fn filled(rows: &[IndexRow]) -> IndexStore {
    let mut index = IndexStore::new();
    for row in rows {
        index.insert(row.clone());
    }
    index
}

#[test]
fn new_index_is_empty() {
    let index = IndexStore::new();
    assert_eq!(index.len(), 0);
    assert!(index.rows().is_empty());
    assert!(!index.contains(&row("a", "struct", "p")));
}

#[test]
fn insert_adds_a_new_row_at_the_end() {
    let mut index = IndexStore::new();
    assert_eq!(index.insert(row("b", "enum", "m/enum.b.html")), InsertOutcome::Inserted);
    assert_eq!(index.insert(row("a", "struct", "m/struct.a.html")), InsertOutcome::Inserted);
    assert_eq!(
        index.rows(),
        &vec![row("b", "enum", "m/enum.b.html"), row("a", "struct", "m/struct.a.html")]
    );
    assert!(index.contains(&row("a", "struct", "m/struct.a.html")));
}

#[test]
fn insert_ignores_a_duplicate_row() {
    let mut index = IndexStore::new();
    assert_eq!(index.insert(row("a", "struct", "p")), InsertOutcome::Inserted);
    assert_eq!(index.insert(row("b", "struct", "p")), InsertOutcome::Inserted);
    assert_eq!(index.insert(row("a", "struct", "p")), InsertOutcome::DuplicateIgnored);
    assert_eq!(index.len(), 2);
    assert_eq!(index.rows(), &vec![row("a", "struct", "p"), row("b", "struct", "p")]);
}

#[test]
fn rows_differ_when_any_column_differs() {
    let mut index = IndexStore::new();
    assert_eq!(index.insert(row("a", "struct", "p")), InsertOutcome::Inserted);
    assert_eq!(index.insert(row("A", "struct", "p")), InsertOutcome::Inserted);
    assert_eq!(index.insert(row("a", "enum", "p")), InsertOutcome::Inserted);
    assert_eq!(index.insert(row("a", "struct", "q")), InsertOutcome::Inserted);
    assert_eq!(index.len(), 4);
}

#[test]
fn row_set_does_not_depend_on_insertion_order() {
    let a = row("a", "struct", "m/struct.a.html");
    let b = row("b", "enum", "m/enum.b.html");
    let c = row("c", "function", "m/fn.c.html");
    let first = filled(&[a.clone(), b.clone(), c.clone(), a.clone()]);
    let second = filled(&[c.clone(), a.clone(), c.clone(), b.clone(), b.clone()]);
    assert_eq!(row_set(&first), row_set(&second));
    assert_eq!(first.len(), 3);
    assert_eq!(second.len(), 3);
    assert_eq!(first.rows(), &vec![a.clone(), b.clone(), c.clone()]);
    assert_eq!(second.rows(), &vec![c, a, b]);
}

#[test]
fn index_never_holds_a_row_twice() {
    let mut offered = Vec::new();
    for i in 0..40 {
        offered.push(row(&format!("n{}", i % 7), "struct", &format!("p{}", i % 3)));
    }
    let index = filled(&offered);
    assert_eq!(index.len(), 21);
    assert_eq!(row_set(&index).len(), index.len());
}
