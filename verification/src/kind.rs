//! The fixed taxonomy of symbol kinds and their spellings.

use vstd::prelude::*;

verus! {

/// A category of declaration that a listing page groups its symbols under.
#[derive(Clone, Copy, Debug, PartialEq, Eq, Structural, Hash)]
pub enum RustType {
    Struct,
    Enum,
    Macro,
    Typedef,
    Constant,
    Trait,
    Function,
    Union,
}

impl RustType {
    /// The plural category label of a kind, as the documentation generator
    /// spells it.
    pub open spec fn label_text(self) -> Seq<char> {
        match self {
            RustType::Struct => "structs"@,
            RustType::Enum => "enums"@,
            RustType::Macro => "macros"@,
            RustType::Typedef => "types"@,
            RustType::Constant => "constants"@,
            RustType::Trait => "traits"@,
            RustType::Function => "functions"@,
            RustType::Union => "unions"@,
        }
    }

    /// The class token that marks the declarations of a kind on a page. The
    /// generator tags each group with the kind's plural label.
    pub open spec fn marker_text(self) -> Seq<char> {
        self.label_text()
    }

    /// The singular form stored in the index: the label without its last
    /// character.
    pub open spec fn persisted_text(self) -> Seq<char> {
        self.label_text().drop_last()
    }

    /// Every kind, in declaration order.
    pub open spec fn all_kinds() -> Seq<RustType> {
        seq![
            RustType::Struct,
            RustType::Enum,
            RustType::Macro,
            RustType::Typedef,
            RustType::Constant,
            RustType::Trait,
            RustType::Function,
            RustType::Union,
        ]
    }

    /// Returns the plural category label.
    pub fn label(&self) -> (s: &'static str)
        ensures
            s@ == self.label_text(),
    {
        match self {
            RustType::Struct => "structs",
            RustType::Enum => "enums",
            RustType::Macro => "macros",
            RustType::Typedef => "types",
            RustType::Constant => "constants",
            RustType::Trait => "traits",
            RustType::Function => "functions",
            RustType::Union => "unions",
        }
    }

    /// Returns the class token under which a page lists this kind.
    pub fn marker(&self) -> (s: &'static str)
        ensures
            s@ == self.marker_text(),
    {
        self.label()
    }

    /// Returns the singular form that index rows carry in their type column.
    pub fn persisted_type(&self) -> (s: &'static str)
        ensures
            s@ == self.persisted_text(),
            s@.push('s') == self.label_text(),
    {
        proof {
            lemma_label_is_plural(*self);
            lemma_singular_text(*self);
        }
        match self {
            RustType::Struct => "struct",
            RustType::Enum => "enum",
            RustType::Macro => "macro",
            RustType::Typedef => "type",
            RustType::Constant => "constant",
            RustType::Trait => "trait",
            RustType::Function => "function",
            RustType::Union => "union",
        }
    }

    /// Returns the label as an owned string.
    pub fn to_string(&self) -> (s: String)
        ensures
            s@ == self.label_text(),
    {
        String::from_str(self.label())
    }

    /// Returns every kind, in declaration order.
    pub fn all() -> (kinds: Vec<RustType>)
        ensures
            kinds@ == Self::all_kinds(),
    {
        let kinds = vec![
            RustType::Struct,
            RustType::Enum,
            RustType::Macro,
            RustType::Typedef,
            RustType::Constant,
            RustType::Trait,
            RustType::Function,
            RustType::Union,
        ];
        assert(kinds@ =~= Self::all_kinds());
        kinds
    }
}

/// The characters of a kind's label, one by one.
spec fn label_chars(kind: RustType) -> Seq<char> {
    match kind {
        RustType::Struct => seq!['s', 't', 'r', 'u', 'c', 't', 's'],
        RustType::Enum => seq!['e', 'n', 'u', 'm', 's'],
        RustType::Macro => seq!['m', 'a', 'c', 'r', 'o', 's'],
        RustType::Typedef => seq!['t', 'y', 'p', 'e', 's'],
        RustType::Constant => seq!['c', 'o', 'n', 's', 't', 'a', 'n', 't', 's'],
        RustType::Trait => seq!['t', 'r', 'a', 'i', 't', 's'],
        RustType::Function => seq!['f', 'u', 'n', 'c', 't', 'i', 'o', 'n', 's'],
        RustType::Union => seq!['u', 'n', 'i', 'o', 'n', 's'],
    }
}

/// The label of a kind is made of the characters listed for it.
proof fn lemma_label_chars(kind: RustType)
    ensures
        kind.label_text() == label_chars(kind),
{
    match kind {
        RustType::Struct => {
            reveal_strlit("structs");
        },
        RustType::Enum => {
            reveal_strlit("enums");
        },
        RustType::Macro => {
            reveal_strlit("macros");
        },
        RustType::Typedef => {
            reveal_strlit("types");
        },
        RustType::Constant => {
            reveal_strlit("constants");
        },
        RustType::Trait => {
            reveal_strlit("traits");
        },
        RustType::Function => {
            reveal_strlit("functions");
        },
        RustType::Union => {
            reveal_strlit("unions");
        },
    }
    assert(kind.label_text() =~= label_chars(kind));
}

/// The persisted form of a kind as it is written.
spec fn singular_text(kind: RustType) -> Seq<char> {
    match kind {
        RustType::Struct => "struct"@,
        RustType::Enum => "enum"@,
        RustType::Macro => "macro"@,
        RustType::Typedef => "type"@,
        RustType::Constant => "constant"@,
        RustType::Trait => "trait"@,
        RustType::Function => "function"@,
        RustType::Union => "union"@,
    }
}

/// The written singular form of a kind is its label without the last
/// character.
proof fn lemma_singular_text(kind: RustType)
    ensures
        singular_text(kind) == kind.persisted_text(),
{
    lemma_label_chars(kind);
    match kind {
        RustType::Struct => {
            reveal_strlit("struct");
        },
        RustType::Enum => {
            reveal_strlit("enum");
        },
        RustType::Macro => {
            reveal_strlit("macro");
        },
        RustType::Typedef => {
            reveal_strlit("type");
        },
        RustType::Constant => {
            reveal_strlit("constant");
        },
        RustType::Trait => {
            reveal_strlit("trait");
        },
        RustType::Function => {
            reveal_strlit("function");
        },
        RustType::Union => {
            reveal_strlit("union");
        },
    }
    assert(singular_text(kind) =~= label_chars(kind).drop_last());
}

/// The length of a kind's persisted form and its first character. The two
/// together tell the kinds apart.
spec fn persisted_shape(kind: RustType) -> (nat, char) {
    match kind {
        RustType::Struct => (6nat, 's'),
        RustType::Enum => (4nat, 'e'),
        RustType::Macro => (5nat, 'm'),
        RustType::Typedef => (4nat, 't'),
        RustType::Constant => (8nat, 'c'),
        RustType::Trait => (5nat, 't'),
        RustType::Function => (8nat, 'f'),
        RustType::Union => (5nat, 'u'),
    }
}

/// The persisted form of a kind has the length and the first character
/// listed for it.
proof fn lemma_persisted_shape(kind: RustType)
    ensures
        kind.persisted_text().len() == persisted_shape(kind).0,
        kind.persisted_text()[0] == persisted_shape(kind).1,
{
    lemma_label_chars(kind);
    let form = label_chars(kind).drop_last();
    match kind {
        RustType::Struct => {
            assert(form.len() == 6);
            assert(form[0] == 's');
        },
        RustType::Enum => {
            assert(form.len() == 4);
            assert(form[0] == 'e');
        },
        RustType::Macro => {
            assert(form.len() == 5);
            assert(form[0] == 'm');
        },
        RustType::Typedef => {
            assert(form.len() == 4);
            assert(form[0] == 't');
        },
        RustType::Constant => {
            assert(form.len() == 8);
            assert(form[0] == 'c');
        },
        RustType::Trait => {
            assert(form.len() == 5);
            assert(form[0] == 't');
        },
        RustType::Function => {
            assert(form.len() == 8);
            assert(form[0] == 'f');
        },
        RustType::Union => {
            assert(form.len() == 5);
            assert(form[0] == 'u');
        },
    }
}

/// Every label is its persisted form followed by the plural `s`.
pub proof fn lemma_label_is_plural(kind: RustType)
    ensures
        kind.label_text().len() >= 2,
        kind.label_text().last() == 's',
        kind.persisted_text().push('s') == kind.label_text(),
{
    lemma_label_chars(kind);
    let label = label_chars(kind);
    assert(label.len() >= 2);
    assert(label.last() == 's');
    assert(label.drop_last().push('s') =~= label);
}

/// No two kinds share a persisted form, so the type column of an index row
/// identifies the kind.
pub proof fn lemma_persisted_type_injective(a: RustType, b: RustType)
    requires
        a.persisted_text() == b.persisted_text(),
    ensures
        a == b,
{
    lemma_persisted_shape(a);
    lemma_persisted_shape(b);
    assert(persisted_shape(a) == persisted_shape(b));
    match a {
        RustType::Struct => {
            assert(persisted_shape(b) == (6nat, 's'));
            assert(b == RustType::Struct);
        },
        RustType::Enum => {
            assert(persisted_shape(b) == (4nat, 'e'));
            assert(b == RustType::Enum);
        },
        RustType::Macro => {
            assert(persisted_shape(b) == (5nat, 'm'));
            assert(b == RustType::Macro);
        },
        RustType::Typedef => {
            assert(persisted_shape(b) == (4nat, 't'));
            assert(b == RustType::Typedef);
        },
        RustType::Constant => {
            assert(persisted_shape(b) == (8nat, 'c'));
            assert(b == RustType::Constant);
        },
        RustType::Trait => {
            assert(persisted_shape(b) == (5nat, 't'));
            assert(b == RustType::Trait);
        },
        RustType::Function => {
            assert(persisted_shape(b) == (8nat, 'f'));
            assert(b == RustType::Function);
        },
        RustType::Union => {
            assert(persisted_shape(b) == (5nat, 'u'));
            assert(b == RustType::Union);
        },
    }
}

/// No two kinds share a label, so no two kinds share a marker either: a link
/// below one marker belongs to one kind.
pub proof fn lemma_label_injective(a: RustType, b: RustType)
    requires
        a.label_text() == b.label_text(),
    ensures
        a == b,
{
    assert(a.persisted_text() == b.persisted_text());
    lemma_persisted_type_injective(a, b);
}

} // verus!
