//! A chunk piece by piece: the pieces are the stretches of a chunk between
//! its line feeds, and a writer takes them one after the other.

use crate::text::{
    emissions, is_blank, is_whitespace, layout, lemma_blank_chars, lemma_emissions_concat,
    lemma_layout_concat, lemma_layout_take, lemma_weave_plain, newlines, started_after, trimmed,
};
use vstd::prelude::*;

verus! {

/// The line feed in front of a piece, if there is one.
pub open spec fn feed(first: bool) -> Seq<char> {
    if first {
        Seq::empty()
    } else {
        seq!['\n']
    }
}

/// Whether a writer emits a prefix for a piece: a piece is a stretch of a
/// chunk between two line feeds, `first` says that it is the first of its
/// chunk, and `started` whether the writer has started its first line.
pub open spec fn piece_emits(started: bool, first: bool, piece: Seq<char>) -> bool {
    if started {
        !first
    } else {
        !is_blank(piece)
    }
}

/// What a writer appends to its sink for one piece, `p` being the prefix if
/// it emits one.
pub open spec fn piece_layout(
    started: bool,
    first: bool,
    p: Seq<char>,
    piece: Seq<char>,
) -> Seq<char> {
    if started {
        if first {
            piece
        } else {
            seq!['\n'] + p + piece
        }
    } else if is_blank(piece) {
        Seq::empty()
    } else {
        p + trimmed(piece)
    }
}

/// Trimming adds no line feeds.
pub proof fn lemma_trim_newlines(s: Seq<char>)
    ensures
        newlines(trimmed(s)) <= newlines(s),
    decreases s.len(),
{
    if s.len() > 0 && is_whitespace(s[0]) {
        lemma_trim_newlines(s.skip(1));
    }
}

/// The layout of a chunk grows piece by piece: `done` is the part of the
/// chunk before the piece, without the line feed between them, and `ps` are
/// the prefixes emitted for it.
pub proof fn lemma_layout_piece(
    ps: Seq<Seq<char>>,
    started: bool,
    done: Seq<char>,
    first: bool,
    p: Seq<char>,
    piece: Seq<char>,
)
    requires
        newlines(piece) == 0,
        first ==> done.len() == 0,
        ps.len() == emissions(started, done),
    ensures
        ({
            let now = started_after(started, done);
            let all = done + feed(first) + piece;
            let qs = if piece_emits(now, first, piece) {
                ps.push(p)
            } else {
                ps
            };
            &&& emissions(started, all) == qs.len()
            &&& started_after(started, all) == (now || !is_blank(piece))
            &&& layout(qs, started, all) == layout(ps, started, done) + piece_layout(
                now,
                first,
                p,
                piece,
            )
        }),
{
    let now = started_after(started, done);
    let tail = feed(first) + piece;
    let all = done + feed(first) + piece;
    let qs = if piece_emits(now, first, piece) {
        ps.push(p)
    } else {
        ps
    };
    let k = ps.len() as int;
    assert(all =~= done + tail);
    lemma_emissions_concat(started, done, tail);
    lemma_trim_newlines(piece);
    lemma_weave_plain(Seq::empty(), piece);
    lemma_weave_plain(Seq::empty(), trimmed(piece));
    if first {
        if now {
            lemma_weave_plain(qs, piece);
        } else if !is_blank(piece) {
            assert(qs.skip(1) =~= Seq::empty());
        }
    } else {
        assert(tail.skip(1) =~= piece);
        lemma_layout_concat(qs, started, done, tail);
        lemma_layout_take(qs, started, done, k);
        assert(qs.take(k) =~= ps);
        if piece_emits(now, first, piece) {
            assert(qs.skip(k) =~= seq![p]);
            assert(seq![p].skip(1) =~= Seq::empty());
        }
    }
}

/// What a writer has appended for the front part of a chunk is the front
/// part of what it appends for the whole chunk.
pub proof fn lemma_layout_prefix(ps: Seq<Seq<char>>, started: bool, a: Seq<char>, b: Seq<char>)
    requires
        emissions(started, a + b) <= ps.len(),
    ensures
        emissions(started, a) <= emissions(started, a + b),
        layout(ps.take(emissions(started, a) as int), started, a).is_prefix_of(
            layout(ps, started, a + b),
        ),
{
    lemma_emissions_concat(started, a, b);
    lemma_layout_concat(ps, started, a, b);
    lemma_layout_take(ps, started, a, emissions(started, a) as int);
}

/// A part of a blank text is blank.
pub proof fn lemma_blank_part(a: Seq<char>, b: Seq<char>, c: Seq<char>)
    requires
        is_blank(a + b + c),
    ensures
        is_blank(b),
{
    let s = a + b + c;
    lemma_blank_chars(s);
    lemma_blank_chars(b);
    assert forall|i: int| 0 <= i < b.len() implies is_whitespace(#[trigger] b[i]) by {
        assert(s[a.len() + i] == b[i]);
    }
}

/// `str::trim_start` of the standard library returns the slice without its
/// leading white space, where white space is what Unicode marks as
/// `White_Space`. This is its documentation in the terms of [`trimmed`]; it
/// is assumed here, not proved.
pub assume_specification[ str::trim_start ](s: &str) -> (r: &str)
    ensures
        r@ == trimmed(s@),
;

/// Cuts `s` at its first line feed, with `str::split_once` of the standard
/// library: `None` if `s` has no line feed, else the text before the first
/// one and the text behind it. That `split_once` does so is its
/// documentation; it is assumed here, not proved.
#[verifier::external_body]
pub(crate) fn split_line(s: &str) -> (r: Option<(&str, &str)>)
    ensures
        match r {
            None => !s@.contains('\n'),
            Some((head, tail)) => !head@.contains('\n') && s@ == head@ + seq!['\n'] + tail@,
        },
{
    s.split_once('\n')
}

} // verus!
