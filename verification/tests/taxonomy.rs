use dashgen::kind::RustType;

fn kinds() -> Vec<RustType> {
    vec![
        RustType::Struct,
        RustType::Enum,
        RustType::Macro,
        RustType::Typedef,
        RustType::Constant,
        RustType::Trait,
        RustType::Function,
        RustType::Union,
    ]
}

#[test]
fn labels_are_the_plural_forms() {
    assert_eq!(RustType::Struct.label(), "structs");
    assert_eq!(RustType::Enum.label(), "enums");
    assert_eq!(RustType::Macro.label(), "macros");
    assert_eq!(RustType::Typedef.label(), "types");
    assert_eq!(RustType::Constant.label(), "constants");
    assert_eq!(RustType::Trait.label(), "traits");
    assert_eq!(RustType::Function.label(), "functions");
    assert_eq!(RustType::Union.label(), "unions");
}

#[test]
fn persisted_types_are_the_singular_forms() {
    assert_eq!(RustType::Struct.persisted_type(), "struct");
    assert_eq!(RustType::Enum.persisted_type(), "enum");
    assert_eq!(RustType::Macro.persisted_type(), "macro");
    assert_eq!(RustType::Typedef.persisted_type(), "type");
    assert_eq!(RustType::Constant.persisted_type(), "constant");
    assert_eq!(RustType::Trait.persisted_type(), "trait");
    assert_eq!(RustType::Function.persisted_type(), "function");
    assert_eq!(RustType::Union.persisted_type(), "union");
}

#[test]
fn marker_is_the_label() {
    for kind in kinds() {
        assert_eq!(kind.marker(), kind.label());
    }
}

#[test]
fn persisted_type_is_label_without_trailing_s() {
    for kind in kinds() {
        let label = kind.label();
        assert!(label.ends_with('s'));
        assert_eq!(kind.persisted_type(), &label[..label.len() - 1]);
        assert_eq!(format!("{}s", kind.persisted_type()), label);
    }
}

#[test]
fn no_two_kinds_share_a_persisted_type() {
    let all = kinds();
    for (i, a) in all.iter().enumerate() {
        for (j, b) in all.iter().enumerate() {
            assert_eq!(a.persisted_type() == b.persisted_type(), i == j);
        }
    }
}

#[test]
fn all_lists_every_kind_in_order() {
    assert_eq!(RustType::all(), kinds());
}

#[test]
fn to_string_gives_the_label() {
    assert_eq!(RustType::Typedef.to_string(), "types");
    for kind in kinds() {
        assert_eq!(kind.to_string(), kind.label());
    }
}
