//! What holds of every writer, whatever it is given.

use crate::format::{advance, decimal, logged, padding, Format};
use crate::sink::Write;
use crate::text::{
    emissions, is_blank, is_whitespace, layout, lemma_emissions_concat, lemma_layout_concat,
    lemma_layout_take, newlines, started_after, weave,
};
use vstd::prelude::*;

verus! {

/// `t` with `m` put behind each of its line feeds.
pub open spec fn indent(t: Seq<char>, m: Seq<char>) -> Seq<char>
    decreases t.len(),
{
    if t.len() == 0 {
        Seq::empty()
    } else if t[0] == '\n' {
        seq!['\n'] + m + indent(t.skip(1), m)
    } else {
        seq![t[0]] + indent(t.skip(1), m)
    }
}

/// Weaving the same prefix into a text puts it behind every line feed.
proof fn lemma_weave_same(ps: Seq<Seq<char>>, t: Seq<char>, m: Seq<char>)
    requires
        newlines(t) <= ps.len(),
        forall|k: int| 0 <= k < ps.len() ==> ps[k] == m,
    ensures
        weave(ps, t) == indent(t, m),
    decreases t.len(),
{
    if t.len() > 0 {
        if t[0] == '\n' {
            lemma_weave_same(ps.skip(1), t.skip(1), m);
        } else {
            lemma_weave_same(ps, t.skip(1), m);
        }
    }
}

/// A text that does not begin with white space, given to a writer with a
/// uniform marker that has not started its first line, comes out as the
/// marker, then the text with the marker behind each of its line feeds.
pub proof fn lemma_uniform_output<D: Write + ?Sized>(
    format: &Format<'_, D>,
    line: usize,
    t: Seq<char>,
)
    requires
        format is Uniform,
        t.len() > 0,
        !is_whitespace(t[0]),
    ensures
        format.output(false, line, t) == format->indentation@ + indent(t, format->indentation@),
{
    let m = format->indentation@;
    let ps = format.prefixes(line, emissions(false, t));
    lemma_weave_same(ps.skip(1), t, m);
}

/// What a writer appends to its sink for the chunks `chunks`, given one
/// after the other.
pub open spec fn output_chunks<D: Write + ?Sized>(
    format: &Format<'_, D>,
    started: bool,
    line: usize,
    chunks: Seq<Seq<char>>,
) -> Seq<char>
    recommends
        !format.is_custom(),
    decreases chunks.len(),
{
    if chunks.len() == 0 {
        Seq::empty()
    } else {
        format.output(started, line, chunks[0]) + output_chunks(
            format,
            started_after(started, chunks[0]),
            advance(line, emissions(started, chunks[0])),
            chunks.skip(1),
        )
    }
}

/// What a writer appends for a chunk in two parts is what it appends for the
/// whole.
pub proof fn lemma_output_concat<D: Write + ?Sized>(
    format: &Format<'_, D>,
    started: bool,
    line: usize,
    a: Seq<char>,
    b: Seq<char>,
)
    requires
        !format.is_custom(),
    ensures
        format.output(started, line, a + b) == format.output(started, line, a) + format.output(
            started_after(started, a),
            advance(line, emissions(started, a)),
            b,
        ),
{
    let n = emissions(started, a);
    let m = emissions(started_after(started, a), b);
    let ps = format.prefixes(line, emissions(started, a + b));
    lemma_emissions_concat(started, a, b);
    lemma_layout_concat(ps, started, a, b);
    lemma_layout_take(ps, started, a, n as int);
    assert(ps.take(n as int) =~= format.prefixes(line, n));
    assert(ps.skip(n as int) =~= format.prefixes(advance(line, n), m));
}

/// However a text is cut into chunks, a writer puts the same into its sink
/// for them as for the text in one piece.
pub proof fn lemma_chunks<D: Write + ?Sized>(
    format: &Format<'_, D>,
    started: bool,
    line: usize,
    chunks: Seq<Seq<char>>,
)
    requires
        !format.is_custom(),
    ensures
        output_chunks(format, started, line, chunks) == format.output(
            started,
            line,
            chunks.flatten(),
        ),
    decreases chunks.len(),
{
    if chunks.len() > 0 {
        let c = chunks[0];
        lemma_chunks(
            format,
            started_after(started, c),
            advance(line, emissions(started, c)),
            chunks.skip(1),
        );
        lemma_output_concat(format, started, line, c, chunks.skip(1).flatten());
    }
}

/// A custom inserter is asked once for each line that begins, with line
/// numbers that count up from the number of the first of them.
pub proof fn lemma_line_numbers(line: usize, ps: Seq<Seq<char>>)
    ensures
        logged(line, ps).len() == ps.len(),
        forall|k: int|
            0 <= k < ps.len() ==> (#[trigger] logged(line, ps)[k]).0 == advance(line, k as nat),
        forall|j: int, k: int|
            0 <= j < k < ps.len() && line + k <= usize::MAX ==> (#[trigger] logged(line, ps)[j]).0
                < (#[trigger] logged(line, ps)[k]).0,
{
}

/// Blank text in front of the first line leaves no trace: a writer that has
/// not started a line emits no prefix for it and appends nothing, and what
/// follows comes out as if the blank text had not been there.
pub proof fn lemma_leading_blank(ps: Seq<Seq<char>>, blank: Seq<char>, t: Seq<char>)
    requires
        is_blank(blank),
    ensures
        emissions(false, blank) == 0,
        layout(ps, false, blank) == Seq::<char>::empty(),
        !started_after(false, blank),
        emissions(false, blank + t) == emissions(false, t),
        layout(ps, false, blank + t) == layout(ps, false, t),
{
    lemma_emissions_concat(false, blank, t);
    lemma_layout_concat(ps, false, blank, t);
    assert(ps.skip(0) =~= ps);
}

/// A writer has started its first line exactly if it has put something into
/// its sink: as long as it is given blank text it appends nothing, and the
/// chunk that starts the line appends text.
pub proof fn lemma_started(ps: Seq<Seq<char>>, s: Seq<char>)
    ensures
        started_after(false, s) <==> layout(ps, false, s).len() > 0,
{
}

/// The prefixes of a numbered writer are of one width on all lines, so that
/// the text of the lines that follow stands under the text of the first.
pub proof fn lemma_numbered_width<D: Write + ?Sized>(format: &Format<'_, D>, line: usize)
    requires
        format is Numbered,
    ensures
        format.prefix(line).len() == format.prefix(0).len(),
        format.prefix(0).len() == decimal(format->ind as nat).len() + padding(
            decimal(format->ind as nat).len(),
        ) + 2,
        format.prefix(0).len() >= 6,
{
}

} // verus!
