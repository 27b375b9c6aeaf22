//! Where a run reads and writes when the caller names no place.

use vstd::prelude::*;
use crate::text::{
    last_piece, lemma_pieces_nonempty, lemma_replaced_char, pieces, replace, split, with_char,
};

verus! {

/// The package name in the identifier that the package manager prints for a
/// package: of the text behind the last `/`, the part behind the last `#`,
/// up to its first `:`.
pub open spec fn package_name_of(pkgid: Seq<char>) -> Seq<char> {
    let location = pieces(pkgid, seq!['/']).last();
    let fragment = pieces(location, seq!['#']).last();
    pieces(fragment, seq![':']).first()
}

/// The name under which a package's documentation is stored: the package
/// name with `_` for each `-`.
pub open spec fn crate_name_of(package: Seq<char>) -> Seq<char> {
    with_char(package, '-', '_')
}

/// The directory that a run uses for a package when none is named: for its
/// input the package's documentation below `target/doc`, for its output a
/// directory named after the package.
pub open spec fn default_dir_of(package: Seq<char>, is_input: bool) -> Seq<char> {
    if is_input {
        "target/doc/"@ + crate_name_of(package)
    } else {
        crate_name_of(package)
    }
}

/// What the places of a run stand for in contracts.
pub struct LocationsView {
    pub docs: Seq<char>,
    pub dest: Seq<char>,
    pub name: Seq<char>,
}

/// The places of a run: the documentation directory it reads, the directory
/// below which it writes the docset, and the docset's name.
#[derive(Clone, Debug, PartialEq, Eq, Hash)]
pub struct Locations {
    pub docs: String,
    pub dest: String,
    pub name: String,
}

impl DeepView for Locations {
    type V = LocationsView;

    open spec fn deep_view(&self) -> LocationsView {
        LocationsView { docs: self.docs@, dest: self.dest@, name: self.name@ }
    }
}

/// The documentation directory of a run: the directory that the caller names,
/// taken with `_dash` behind it, or else the package's default.
pub open spec fn docs_dir_of(root: Option<Seq<char>>, package: Seq<char>) -> Seq<char> {
    match root {
        Some(dir) => dir + "_dash"@,
        None => default_dir_of(package, true),
    }
}

/// The places of a run, given what the caller chose and the name of the
/// package at hand. A documentation directory that the caller names is taken
/// with `_dash` behind it. Without a chosen name the docset is called after
/// the package; there is no answer where the package has no name either.
pub open spec fn located(
    root: Option<Seq<char>>,
    src: Option<Seq<char>>,
    name: Option<Seq<char>>,
    package: Seq<char>,
) -> Option<LocationsView> {
    let docs = docs_dir_of(root, package);
    let dest = match src {
        Some(dir) => dir,
        None => default_dir_of(package, false),
    };
    match name {
        Some(name) => Some(LocationsView { docs, dest, name }),
        None => if package.len() == 0 {
            None
        } else {
            Some(LocationsView { docs, dest, name: crate_name_of(package) })
        },
    }
}

/// Whether the places of a run depend on the name of the package at hand:
/// they do as soon as the caller leaves one of the three choices open.
pub open spec fn package_needed(
    root: Option<Seq<char>>,
    src: Option<Seq<char>>,
    name: Option<Seq<char>>,
) -> bool {
    root is None || src is None || name is None
}

/// Tells whether the name of the package at hand is needed to settle the
/// places of a run.
pub fn needs_package(root: &Option<String>, src: &Option<String>, name: &Option<String>) -> (needed:
    bool)
    ensures
        needed == package_needed(root.deep_view(), src.deep_view(), name.deep_view()),
{
    root.is_none() || src.is_none() || name.is_none()
}

/// Reads the package name out of a package identifier.
pub fn package_name(pkgid: &str) -> (name: String)
    ensures
        name@ == package_name_of(pkgid@),
{
    proof {
        reveal_strlit("/");
        reveal_strlit("#");
        reveal_strlit(":");
    }
    assert("/"@ =~= seq!['/']);
    assert("#"@ =~= seq!['#']);
    assert(":"@ =~= seq![':']);
    let location = last_piece(pkgid, "/");
    let fragment = last_piece(location.as_str(), "#");
    proof {
        lemma_pieces_nonempty(fragment@, ":"@, 0, 0);
    }
    let parts = split(fragment.as_str(), ":");
    assert(parts[0]@ == parts.deep_view().first());
    parts[0].clone()
}

/// Returns the name under which the documentation of `package` is stored.
pub fn crate_name(package: &str) -> (name: String)
    ensures
        name@ == crate_name_of(package@),
{
    proof {
        reveal_strlit("-");
        reveal_strlit("_");
        lemma_replaced_char(package@, '-', '_');
    }
    assert("-"@ =~= seq!['-']);
    assert("_"@ =~= seq!['_']);
    replace(package, "-", "_")
}

/// Returns the directory that a run uses for `package` when none is named.
pub fn default_dir(package: &str, is_input: bool) -> (dir: String)
    ensures
        dir@ == default_dir_of(package@, is_input),
{
    let name = crate_name(package);
    if is_input {
        String::from_str("target/doc/").concat(name.as_str())
    } else {
        name
    }
}

/// Returns the documentation directory of a run, as the caller chose it or
/// as the package at hand gives it.
pub fn docs_dir(root: &Option<String>, package: &str) -> (dir: String)
    ensures
        dir@ == docs_dir_of(root.deep_view(), package@),
{
    match root {
        Some(dir) => dir.clone().concat("_dash"),
        None => default_dir(package, true),
    }
}

/// Settles the places of a run from what the caller chose and the name of
/// the package at hand.
pub fn locate(
    root: Option<String>,
    src: Option<String>,
    name: Option<String>,
    package: &str,
) -> (places: Option<Locations>)
    ensures
        places.deep_view() == located(
            root.deep_view(),
            src.deep_view(),
            name.deep_view(),
            package@,
        ),
{
    let docs = docs_dir(&root, package);
    let dest = match src {
        Some(dir) => dir,
        None => default_dir(package, false),
    };
    match name {
        Some(name) => Some(Locations { docs, dest, name }),
        None => if package.unicode_len() == 0 {
            None
        } else {
            Some(Locations { docs, dest, name: crate_name(package) })
        },
    }
}

} // verus!
