//! Paths as text whose segments are separated by `/`.

use vstd::prelude::*;
use crate::text::{last_piece, lemma_last_piece, pieces, split};

verus! {

/// The path of `rel` below the directory `base`. A `/` is put between the
/// two unless `base` is empty or ends with one.
pub open spec fn joined(base: Seq<char>, rel: Seq<char>) -> Seq<char> {
    if base.len() == 0 || base.last() == '/' {
        base + rel
    } else {
        base + seq!['/'] + rel
    }
}

/// The last segment of a path: what follows its last `/`, or the whole path
/// where it has none.
pub open spec fn last_segment_of(path: Seq<char>) -> Seq<char> {
    pieces(path, seq!['/']).last()
}

/// The directory that holds a path: what stands before its last `/`, or the
/// root `/` where nothing stands before it. A path without `/` names no
/// directory.
pub open spec fn parent_of(path: Seq<char>) -> Option<Seq<char>> {
    let parts = pieces(path, seq!['/']);
    let cut = path.len() - parts.last().len() - 1;
    if parts.len() < 2 {
        None
    } else if cut == 0 {
        Some(seq!['/'])
    } else {
        Some(path.subrange(0, cut))
    }
}

/// Returns the path of `rel` below the directory `base`.
pub fn join(base: &str, rel: &str) -> (path: String)
    ensures
        path@ == joined(base@, rel@),
{
    let n = base.unicode_len();
    if n == 0 || base.get_char(n - 1) == '/' {
        String::from_str(base).concat(rel)
    } else {
        proof {
            reveal_strlit("/");
        }
        assert("/"@ =~= seq!['/']);
        String::from_str(base).concat("/").concat(rel)
    }
}

/// Returns the last segment of `path`.
pub fn last_segment(path: &str) -> (segment: String)
    ensures
        segment@ == last_segment_of(path@),
{
    proof {
        reveal_strlit("/");
    }
    assert("/"@ =~= seq!['/']);
    last_piece(path, "/")
}

/// Returns the directory that holds `path`, if the path names one.
pub fn parent(path: &str) -> (dir: Option<String>)
    ensures
        dir.deep_view() == parent_of(path@),
{
    proof {
        reveal_strlit("/");
        lemma_last_piece(path@, "/"@, 0, 0);
    }
    assert("/"@ =~= seq!['/']);
    let mut parts = split(path, "/");
    let ghost all = parts.deep_view();
    if parts.len() < 2 {
        return None;
    }
    let last = parts.pop().unwrap();
    assert(last@ == all.last());
    let cut = path.unicode_len() - last.as_str().unicode_len() - 1;
    if cut == 0 {
        Some(String::from_str("/"))
    } else {
        Some(String::from_str(path.substring_char(0, cut)))
    }
}

} // verus!
