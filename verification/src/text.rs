//! Cutting text at separators.

use vstd::prelude::*;

verus! {

/// Whether `sep` stands in `s` at index `i`.
pub open spec fn occurs_at(s: Seq<char>, sep: Seq<char>, i: int) -> bool {
    0 <= i && i + sep.len() <= s.len() && s.subrange(i, i + sep.len()) == sep
}

/// The pieces of `s` from index `start` on, where the scan for the next
/// separator has reached index `i`. A separator found at `i` ends the piece
/// that began at `start`, and the scan goes on behind it.
pub open spec fn pieces_from(s: Seq<char>, sep: Seq<char>, start: int, i: int) -> Seq<Seq<char>>
    decreases s.len() - i,
{
    if sep.len() == 0 || start < 0 || i < start || i + sep.len() > s.len() {
        seq![s.subrange(start, s.len() as int)]
    } else if occurs_at(s, sep, i) {
        seq![s.subrange(start, i)] + pieces_from(s, sep, i + sep.len(), i + sep.len())
    } else {
        pieces_from(s, sep, start, i + 1)
    }
}

/// The pieces into which the occurrences of `sep` cut `s`, found from left to
/// right without overlap. There is always at least one piece; a text without
/// any separator is its own single piece, and so is any text where the
/// separator is empty.
pub open spec fn pieces(s: Seq<char>, sep: Seq<char>) -> Seq<Seq<char>> {
    pieces_from(s, sep, 0, 0)
}

/// A scan always yields at least one piece.
pub proof fn lemma_pieces_nonempty(s: Seq<char>, sep: Seq<char>, start: int, i: int)
    ensures
        pieces_from(s, sep, start, i).len() >= 1,
    decreases s.len() - i,
{
    if sep.len() == 0 || start < 0 || i < start || i + sep.len() > s.len() {
    } else if occurs_at(s, sep, i) {
        lemma_pieces_nonempty(s, sep, i + sep.len(), i + sep.len());
    } else {
        lemma_pieces_nonempty(s, sep, start, i + 1);
    }
}

/// Where the last piece of a scan begins. The last piece is the end of the
/// text from there on; with two or more pieces a separator stands directly
/// before it, and with a single piece it begins where the scan's first piece
/// began.
pub open spec fn last_cut(s: Seq<char>, sep: Seq<char>, start: int, i: int) -> int {
    s.len() - pieces_from(s, sep, start, i).last().len()
}

/// The last piece is a suffix of the text, it holds no separator that the
/// scan could still find, and what precedes it ends with a separator unless
/// it is the only piece.
pub proof fn lemma_last_piece(s: Seq<char>, sep: Seq<char>, start: int, i: int)
    requires
        sep.len() > 0,
        0 <= start <= i <= s.len(),
    ensures
        start <= last_cut(s, sep, start, i) <= s.len(),
        pieces_from(s, sep, start, i).last() == s.subrange(
            last_cut(s, sep, start, i),
            s.len() as int,
        ),
        pieces_from(s, sep, start, i).len() == 1 ==> last_cut(s, sep, start, i) == start,
        pieces_from(s, sep, start, i).len() >= 2 ==> {
            &&& i + sep.len() <= last_cut(s, sep, start, i)
            &&& occurs_at(s, sep, last_cut(s, sep, start, i) - sep.len())
        },
        forall|j: int|
            last_cut(s, sep, start, i) <= j && i <= j ==> !occurs_at(s, sep, j),
    decreases s.len() - i,
{
    if i + sep.len() > s.len() {
    } else if occurs_at(s, sep, i) {
        let next = i + sep.len();
        let rest = pieces_from(s, sep, next, next);
        lemma_last_piece(s, sep, next, next);
        lemma_pieces_nonempty(s, sep, next, next);
        assert(pieces_from(s, sep, start, i) == seq![s.subrange(start, i)] + rest);
        assert((seq![s.subrange(start, i)] + rest).last() == rest.last());
    } else {
        lemma_last_piece(s, sep, start, i + 1);
    }
}

/// A scan that finds no separator any more yields what is left as one piece.
pub proof fn lemma_single_piece(s: Seq<char>, sep: Seq<char>, start: int, i: int)
    requires
        0 <= start <= i <= s.len(),
        forall|j: int| i <= j ==> !occurs_at(s, sep, j),
    ensures
        pieces_from(s, sep, start, i) == seq![s.subrange(start, s.len() as int)],
    decreases s.len() - i,
{
    if !(sep.len() == 0 || i + sep.len() > s.len()) {
        lemma_single_piece(s, sep, start, i + 1);
    }
}

/// A scan of a text that begins with `front` goes on behind `front` as a
/// scan of the rest alone would.
pub proof fn lemma_pieces_shift(front: Seq<char>, rest: Seq<char>, sep: Seq<char>, start: int, i: int)
    requires
        sep.len() > 0,
        0 <= start <= i <= rest.len(),
    ensures
        pieces_from(front + rest, sep, front.len() + start, front.len() + i) == pieces_from(
            rest,
            sep,
            start,
            i,
        ),
    decreases rest.len() - i,
{
    let whole = front + rest;
    let n = front.len() as int;
    assert(whole.subrange(n + start, whole.len() as int) =~= rest.subrange(
        start,
        rest.len() as int,
    ));
    if i + sep.len() <= rest.len() {
        assert(whole.subrange(n + i, n + i + sep.len()) =~= rest.subrange(i, i + sep.len()));
        if occurs_at(rest, sep, i) {
            let next = i + sep.len();
            lemma_pieces_shift(front, rest, sep, next, next);
            assert(whole.subrange(n + start, n + i) =~= rest.subrange(start, i));
        } else {
            lemma_pieces_shift(front, rest, sep, start, i + 1);
        }
    }
}

/// The scan of `front + sep + rest` runs through `front` as a scan of
/// `front` alone would, then cuts at the separator behind it, unless an
/// occurrence of the separator begins in `front` and reaches into that
/// separator.
proof fn lemma_pieces_through_front(
    front: Seq<char>,
    sep: Seq<char>,
    rest: Seq<char>,
    start: int,
    i: int,
)
    requires
        sep.len() > 0,
        0 <= start <= i <= front.len(),
        forall|j: int|
            front.len() - sep.len() < j < front.len() ==> !occurs_at(front + sep + rest, sep, j),
    ensures
        pieces_from(front + sep + rest, sep, start, i) == pieces_from(front, sep, start, i)
            + pieces_from(
            front + sep + rest,
            sep,
            (front.len() + sep.len()) as int,
            (front.len() + sep.len()) as int,
        ),
    decreases front.len() - i,
{
    let whole = front + sep + rest;
    let n = front.len() as int;
    let behind = pieces_from(whole, sep, n + sep.len(), n + sep.len());
    assert(whole.subrange(start, n) =~= front.subrange(start, n));
    if i == n {
        assert(whole.subrange(n, n + sep.len()) =~= sep);
        assert(pieces_from(whole, sep, start, i) == seq![whole.subrange(start, n)] + behind);
    } else if i + sep.len() > n {
        lemma_pieces_through_front(front, sep, rest, start, i + 1);
        assert(pieces_from(front, sep, start, i + 1) == seq![front.subrange(start, n)]);
    } else {
        assert(whole.subrange(i, i + sep.len()) =~= front.subrange(i, i + sep.len()));
        if occurs_at(front, sep, i) {
            let next = i + sep.len();
            lemma_pieces_through_front(front, sep, rest, next, next);
            assert(whole.subrange(start, i) =~= front.subrange(start, i));
            assert(seq![front.subrange(start, i)] + (pieces_from(front, sep, next, next) + behind)
                =~= (seq![front.subrange(start, i)] + pieces_from(front, sep, next, next))
                + behind);
        } else {
            lemma_pieces_through_front(front, sep, rest, start, i + 1);
        }
    }
}

/// The pieces of two texts joined by a separator are the pieces of the first
/// followed by the pieces of the second, unless an occurrence of the
/// separator begins in the first text and reaches into the joining one.
pub proof fn lemma_pieces_concat(front: Seq<char>, sep: Seq<char>, rest: Seq<char>)
    requires
        sep.len() > 0,
        forall|j: int|
            front.len() - sep.len() < j < front.len() ==> !occurs_at(front + sep + rest, sep, j),
    ensures
        pieces(front + sep + rest, sep) == pieces(front, sep) + pieces(rest, sep),
{
    lemma_pieces_through_front(front, sep, rest, 0, 0);
    lemma_pieces_shift(front + sep, rest, sep, 0, 0);
}

/// The pieces put together again with `glue` between each two neighbours.
pub open spec fn glued(parts: Seq<Seq<char>>, glue: Seq<char>) -> Seq<char>
    decreases parts.len(),
{
    if parts.len() == 0 {
        Seq::empty()
    } else if parts.len() == 1 {
        parts[0]
    } else {
        glued(parts.drop_last(), glue) + glue + parts.last()
    }
}

/// The text `s` with every occurrence of `from`, found from left to right
/// without overlap, replaced by `to`.
pub open spec fn replaced(s: Seq<char>, from: Seq<char>, to: Seq<char>) -> Seq<char> {
    glued(pieces(s, from), to)
}

/// Gluing a piece in front of a list of pieces puts it, and the glue, in
/// front of the glued list.
pub proof fn lemma_glued_front(first: Seq<char>, rest: Seq<Seq<char>>, glue: Seq<char>)
    requires
        rest.len() >= 1,
    ensures
        glued(seq![first] + rest, glue) == first + glue + glued(rest, glue),
    decreases rest.len(),
{
    let all = seq![first] + rest;
    assert(all.last() == rest.last());
    if rest.len() == 1 {
        assert(all.drop_last() =~= seq![first]);
        assert(glued(all, glue) == glued(seq![first], glue) + glue + rest.last());
    } else {
        assert(all.drop_last() =~= seq![first] + rest.drop_last());
        lemma_glued_front(first, rest.drop_last(), glue);
        assert(glued(all, glue) =~= first + glue + glued(rest, glue));
    }
}

/// The text `s` with `to` in each place where `from` stands.
pub open spec fn with_char(s: Seq<char>, from: char, to: char) -> Seq<char> {
    Seq::new(
        s.len(),
        |i: int|
            if s[i] == from {
                to
            } else {
                s[i]
            },
    )
}

/// Gluing the pieces of a scan for one character with another character
/// exchanges the one for the other in what the scan ran over.
proof fn lemma_replaced_char_from(s: Seq<char>, from: char, to: char, start: int, i: int)
    requires
        0 <= start <= i <= s.len(),
        forall|j: int| start <= j < i ==> s[j] != from,
    ensures
        glued(pieces_from(s, seq![from], start, i), seq![to]) == with_char(
            s.subrange(start, s.len() as int),
            from,
            to,
        ),
    decreases s.len() - i,
{
    let sep = seq![from];
    let tail = s.subrange(start, s.len() as int);
    if i + 1 > s.len() {
        assert(with_char(tail, from, to) =~= tail);
    } else if occurs_at(s, sep, i) {
        let next = i + 1;
        let rest = pieces_from(s, sep, next, next);
        assert(s.subrange(i, i + 1)[0] == from);
        lemma_replaced_char_from(s, from, to, next, next);
        lemma_pieces_nonempty(s, sep, next, next);
        lemma_glued_front(s.subrange(start, i), rest, seq![to]);
        assert(s.subrange(start, i) + seq![to] + with_char(
            s.subrange(next, s.len() as int),
            from,
            to,
        ) =~= with_char(tail, from, to));
    } else {
        assert(s[i] != from) by {
            if s[i] == from {
                assert(s.subrange(i, i + 1) =~= sep);
            }
        }
        lemma_replaced_char_from(s, from, to, start, i + 1);
    }
}

/// Replacing one character by another changes the text place by place.
pub proof fn lemma_replaced_char(s: Seq<char>, from: char, to: char)
    ensures
        replaced(s, seq![from], seq![to]) == with_char(s, from, to),
{
    lemma_replaced_char_from(s, from, to, 0, 0);
    assert(s.subrange(0, s.len() as int) =~= s);
}

/// Collects the characters of a string.
pub fn chars_of(s: &str) -> (v: Vec<char>)
    ensures
        v@ == s@,
{
    let mut v: Vec<char> = Vec::new();
    for c in it: s.chars()
        invariant
            it.seq() == s@,
            v@ == s@.take(it.index()),
    {
        assert(s@.take(it.index() + 1) =~= s@.take(it.index()).push(c));
        v.push(c);
    }
    assert(s@.take(s@.len() as int) =~= s@);
    v
}

/// Tells whether `pattern` stands in `text` at index `i`.
fn matches_at(text: &Vec<char>, pattern: &Vec<char>, i: usize) -> (found: bool)
    requires
        i + pattern.len() <= text.len(),
    ensures
        found == occurs_at(text@, pattern@, i as int),
{
    let mut k: usize = 0;
    while k < pattern.len()
        invariant
            i + pattern.len() <= text.len(),
            k <= pattern.len(),
            forall|j: int| 0 <= j < k ==> text@[i + j] == pattern@[j],
        decreases pattern.len() - k,
    {
        if text[i + k] != pattern[k] {
            assert(text@.subrange(i as int, i + pattern.len())[k as int] != pattern@[k as int]);
            return false;
        }
        k = k + 1;
    }
    assert(text@.subrange(i as int, i + pattern.len()) =~= pattern@);
    true
}

/// Cuts `s` at every occurrence of `sep`, from left to right, and returns the
/// pieces in order. An empty separator cuts nowhere.
pub fn split(s: &str, sep: &str) -> (parts: Vec<String>)
    ensures
        parts.deep_view() == pieces(s@, sep@),
{
    let text = chars_of(s);
    let pattern = chars_of(sep);
    let mut parts: Vec<String> = Vec::new();
    let mut start: usize = 0;
    let mut i: usize = 0;
    assert(parts.deep_view() =~= Seq::<Seq<char>>::empty());
    while 0 < pattern.len() && pattern.len() <= text.len() - i
        invariant
            text@ == s@,
            pattern@ == sep@,
            start <= i <= text.len(),
            pieces(s@, sep@) == parts.deep_view() + pieces_from(s@, sep@, start as int, i as int),
        decreases text.len() - i,
    {
        if matches_at(&text, &pattern, i) {
            let piece = String::from_str(s.substring_char(start, i));
            let ghost before = parts.deep_view();
            parts.push(piece);
            assert(parts.deep_view() =~= before.push(s@.subrange(start as int, i as int)));
            i = i + pattern.len();
            start = i;
        } else {
            i = i + 1;
        }
    }
    let piece = String::from_str(s.substring_char(start, text.len()));
    let ghost before = parts.deep_view();
    parts.push(piece);
    assert(parts.deep_view() =~= before.push(s@.subrange(start as int, s@.len() as int)));
    parts
}

/// Returns the last of the pieces into which `sep` cuts `s`.
pub fn last_piece(s: &str, sep: &str) -> (piece: String)
    ensures
        piece@ == pieces(s@, sep@).last(),
{
    proof {
        lemma_pieces_nonempty(s@, sep@, 0, 0);
    }
    let mut parts = split(s, sep);
    let ghost all = parts.deep_view();
    let last = parts.pop();
    assert(last.unwrap()@ == all.last());
    last.unwrap()
}

/// Puts the parts together with `between` between each two neighbours.
pub fn glue(parts: &Vec<String>, between: &str) -> (text: String)
    ensures
        text@ == glued(parts.deep_view(), between@),
{
    let ghost views = parts.deep_view();
    let mut text = String::new();
    let mut i: usize = 0;
    assert(views.take(0) =~= Seq::<Seq<char>>::empty());
    while i < parts.len()
        invariant
            i <= parts.len(),
            views == parts.deep_view(),
            text@ == glued(views.take(i as int), between@),
        decreases parts.len() - i,
    {
        if i > 0 {
            text.append(between);
        }
        text.append(parts[i].as_str());
        assert(views.take(i + 1).drop_last() =~= views.take(i as int));
        assert(views.take(i + 1).last() == parts[i as int]@);
        if i == 0 {
            assert(text@ =~= parts[i as int]@);
        }
        i = i + 1;
    }
    assert(views.take(i as int) =~= views);
    text
}

/// Replaces every occurrence of `from` in `s` by `to`. An empty `from`
/// occurs nowhere.
pub fn replace(s: &str, from: &str, to: &str) -> (text: String)
    ensures
        text@ == replaced(s@, from@, to@),
{
    let parts = split(s, from);
    glue(&parts, to)
}

} // verus!
