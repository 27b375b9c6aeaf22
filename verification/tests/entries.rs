use dashgen::entry::{short_name, Entry};
use dashgen::index::{IndexRow, IndexStore, InsertOutcome};
use dashgen::kind::RustType;

fn row(name: &str, entry_type: &str, path: &str) -> IndexRow {
    IndexRow { name: name.to_string(), entry_type: entry_type.to_string(), path: path.to_string() }
}

fn widget() -> Entry {
    Entry::new("Widget".to_string(), RustType::Struct, "mycrate/struct.Widget.html".to_string())
}

#[test]
fn short_name_keeps_the_last_segment() {
    assert_eq!(short_name("a::b::Widget"), "Widget");
    assert_eq!(short_name("mycrate::run"), "run");
}

#[test]
fn short_name_of_a_plain_name_is_the_name() {
    assert_eq!(short_name("Widget"), "Widget");
    assert_eq!(short_name(""), "");
    assert_eq!(short_name("a:b"), "a:b");
}

#[test]
fn short_name_cuts_at_a_separator_inside_an_operator() {
    assert_eq!(short_name("ops::"), "");
    assert_eq!(short_name("a:::b"), ":b");
    assert_eq!(short_name("<T as a::Tr>::Out"), "Out");
}

#[test]
fn entry_hands_back_its_parts() {
    let entry = widget();
    assert_eq!(entry.name(), "Widget");
    assert_eq!(entry.rust_type(), RustType::Struct);
    assert_eq!(entry.path(), "mycrate/struct.Widget.html");
}

#[test]
fn entry_new_takes_the_name_as_it_is() {
    let entry = Entry::new("a::b".to_string(), RustType::Macro, "p".to_string());
    assert_eq!(entry.name(), "a::b");
}

#[test]
fn row_carries_the_singular_type() {
    assert_eq!(widget().row(), row("Widget", "struct", "mycrate/struct.Widget.html"));
    let alias = Entry::new("Id".to_string(), RustType::Typedef, "m/type.Id.html".to_string());
    assert_eq!(alias.row(), row("Id", "type", "m/type.Id.html"));
    let run = Entry::new("run".to_string(), RustType::Function, "m/fn.run.html".to_string());
    assert_eq!(run.row(), row("run", "function", "m/fn.run.html"));
}

#[test]
fn inserting_the_same_entry_twice_yields_one_row() {
    let mut index = IndexStore::new();
    let entry = widget();
    assert_eq!(entry.insert_entry(&mut index), InsertOutcome::Inserted);
    assert_eq!(entry.insert_entry(&mut index), InsertOutcome::DuplicateIgnored);
    assert_eq!(index.len(), 1);
    assert_eq!(index.rows(), &vec![row("Widget", "struct", "mycrate/struct.Widget.html")]);
}

#[test]
fn inserting_an_equal_entry_is_ignored() {
    let mut index = IndexStore::new();
    assert_eq!(widget().insert_entry(&mut index), InsertOutcome::Inserted);
    assert_eq!(widget().insert_entry(&mut index), InsertOutcome::DuplicateIgnored);
    assert_eq!(index.len(), 1);
}

#[test]
fn entries_that_differ_in_one_part_give_two_rows() {
    let mut index = IndexStore::new();
    let base = widget();
    let other_name =
        Entry::new("Gadget".to_string(), RustType::Struct, "mycrate/struct.Widget.html".to_string());
    let other_kind =
        Entry::new("Widget".to_string(), RustType::Enum, "mycrate/struct.Widget.html".to_string());
    let other_path =
        Entry::new("Widget".to_string(), RustType::Struct, "other/struct.Widget.html".to_string());
    assert_eq!(base.insert_entry(&mut index), InsertOutcome::Inserted);
    assert_eq!(other_name.insert_entry(&mut index), InsertOutcome::Inserted);
    assert_eq!(other_kind.insert_entry(&mut index), InsertOutcome::Inserted);
    assert_eq!(other_path.insert_entry(&mut index), InsertOutcome::Inserted);
    assert_eq!(index.len(), 4);
}
