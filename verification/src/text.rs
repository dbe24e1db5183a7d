//! Text as sequences of characters: blank text, line breaks, and what an
//! indenting writer makes of a chunk.

use vstd::prelude::*;

verus! {

/// Whether `c` is white space: the characters that Unicode marks as
/// `White_Space`. The line feed is one of them.
pub open spec fn is_whitespace(c: char) -> bool {
    let u = c as u32;
    ||| 0x09 <= u <= 0x0D
    ||| u == 0x20
    ||| u == 0x85
    ||| u == 0xA0
    ||| u == 0x1680
    ||| 0x2000 <= u <= 0x200A
    ||| u == 0x2028
    ||| u == 0x2029
    ||| u == 0x202F
    ||| u == 0x205F
    ||| u == 0x3000
}

/// `s` without its leading white space.
pub open spec fn trimmed(s: Seq<char>) -> Seq<char>
    decreases s.len(),
{
    if s.len() > 0 && is_whitespace(s[0]) {
        trimmed(s.skip(1))
    } else {
        s
    }
}

/// Whether `s` holds white space only. The empty text is blank.
pub open spec fn is_blank(s: Seq<char>) -> bool {
    trimmed(s).len() == 0
}

/// The number of line feeds in `s`.
pub open spec fn newlines(s: Seq<char>) -> nat
    decreases s.len(),
{
    if s.len() == 0 {
        0
    } else {
        newlines(s.skip(1)) + if s[0] == '\n' {
            1nat
        } else {
            0nat
        }
    }
}

/// `s` with `ps[k]` put behind its `k`-th line feed, counted from 0.
pub open spec fn weave(ps: Seq<Seq<char>>, s: Seq<char>) -> Seq<char>
    recommends
        newlines(s) <= ps.len(),
    decreases s.len(),
{
    if s.len() == 0 {
        Seq::empty()
    } else if s[0] == '\n' {
        seq!['\n'] + ps[0] + weave(ps.skip(1), s.skip(1))
    } else {
        seq![s[0]] + weave(ps, s.skip(1))
    }
}

/// The number of prefixes that a writer emits for the chunk `s`: one in
/// front of the first text if it has not started a line yet, and one behind
/// every line feed that follows text.
pub open spec fn emissions(started: bool, s: Seq<char>) -> nat {
    if started {
        newlines(s)
    } else if is_blank(s) {
        0
    } else {
        1 + newlines(trimmed(s))
    }
}

/// Whether a writer has started its first line once it has taken `s`.
pub open spec fn started_after(started: bool, s: Seq<char>) -> bool {
    started || !is_blank(s)
}

/// What a writer appends to its sink for the chunk `s`, where `ps` are the
/// prefixes it emits, in order.
///
/// A writer that has started a line passes the chunk on and puts a prefix
/// behind every line feed. One that has not drops the leading white space,
/// line feeds included; if anything is left, it puts the first prefix in
/// front and goes on as above.
pub open spec fn layout(ps: Seq<Seq<char>>, started: bool, s: Seq<char>) -> Seq<char>
    recommends
        emissions(started, s) <= ps.len(),
{
    if started {
        weave(ps, s)
    } else if is_blank(s) {
        Seq::empty()
    } else {
        ps[0] + weave(ps.skip(1), trimmed(s))
    }
}

/// Line feeds are counted piece by piece.
pub proof fn lemma_newlines_concat(a: Seq<char>, b: Seq<char>)
    ensures
        newlines(a + b) == newlines(a) + newlines(b),
    decreases a.len(),
{
    if a.len() > 0 {
        assert((a + b).skip(1) =~= a.skip(1) + b);
        lemma_newlines_concat(a.skip(1), b);
    }
}

/// A text has no line feed exactly if its count of line feeds is 0.
pub proof fn lemma_newlines_none(s: Seq<char>)
    ensures
        newlines(s) == 0 <==> !s.contains('\n'),
    decreases s.len(),
{
    if s.len() > 0 {
        lemma_newlines_none(s.skip(1));
        if s[0] != '\n' && s.contains('\n') {
            let i = choose|i: int| 0 <= i < s.len() && s[i] == '\n';
            assert(s.skip(1)[i - 1] == '\n');
        }
    }
}

/// A text without line feeds is woven into itself.
pub proof fn lemma_weave_plain(ps: Seq<Seq<char>>, s: Seq<char>)
    requires
        newlines(s) == 0,
    ensures
        weave(ps, s) == s,
    decreases s.len(),
{
    if s.len() > 0 {
        lemma_weave_plain(ps, s.skip(1));
    }
}

/// Weaving uses only as many prefixes as the text has line feeds.
pub proof fn lemma_weave_take(ps: Seq<Seq<char>>, s: Seq<char>, n: int)
    requires
        newlines(s) <= n <= ps.len(),
    ensures
        weave(ps.take(n), s) == weave(ps, s),
    decreases s.len(),
{
    if s.len() > 0 {
        if s[0] == '\n' {
            lemma_weave_take(ps.skip(1), s.skip(1), n - 1);
            assert(ps.take(n).skip(1) =~= ps.skip(1).take(n - 1));
        } else {
            lemma_weave_take(ps, s.skip(1), n);
        }
    }
}

/// Weaving a text in two parts: the second part goes on with the prefixes
/// that the first has left.
pub proof fn lemma_weave_concat(ps: Seq<Seq<char>>, a: Seq<char>, b: Seq<char>)
    requires
        newlines(a) <= ps.len(),
    ensures
        weave(ps, a + b) == weave(ps, a) + weave(ps.skip(newlines(a) as int), b),
    decreases a.len(),
{
    if a.len() == 0 {
        assert(ps.skip(0) =~= ps);
    } else {
        assert((a + b).skip(1) =~= a.skip(1) + b);
        let k = newlines(a.skip(1)) as int;
        if a[0] == '\n' {
            lemma_weave_concat(ps.skip(1), a.skip(1), b);
            assert(ps.skip(1).skip(k) =~= ps.skip(k + 1));
        } else {
            lemma_weave_concat(ps, a.skip(1), b);
        }
    }
}

/// A text is blank exactly if each of its characters is white space.
pub proof fn lemma_blank_chars(s: Seq<char>)
    ensures
        is_blank(s) <==> forall|i: int| 0 <= i < s.len() ==> is_whitespace(#[trigger] s[i]),
    decreases s.len(),
{
    if s.len() > 0 {
        lemma_blank_chars(s.skip(1));
        if is_whitespace(s[0]) {
            if is_blank(s) {
                assert forall|i: int| 0 <= i < s.len() implies is_whitespace(#[trigger] s[i]) by {
                    if i > 0 {
                        assert(s[i] == s.skip(1)[i - 1]);
                    }
                }
            } else {
                let i = choose|i: int| 0 <= i < s.skip(1).len() && !is_whitespace(s.skip(1)[i]);
                assert(!is_whitespace(s[i + 1]));
            }
        }
    }
}

/// Blank text in front of a text is trimmed away with it.
pub proof fn lemma_trim_blank_concat(a: Seq<char>, b: Seq<char>)
    requires
        is_blank(a),
    ensures
        trimmed(a + b) == trimmed(b),
    decreases a.len(),
{
    if a.len() > 0 {
        assert((a + b).skip(1) =~= a.skip(1) + b);
        lemma_trim_blank_concat(a.skip(1), b);
    }
}

/// Trimming a text that is not blank leaves what follows it alone.
pub proof fn lemma_trim_text_concat(a: Seq<char>, b: Seq<char>)
    requires
        !is_blank(a),
    ensures
        trimmed(a + b) == trimmed(a) + b,
    decreases a.len(),
{
    if a.len() > 0 && is_whitespace(a[0]) {
        assert((a + b).skip(1) =~= a.skip(1) + b);
        lemma_trim_text_concat(a.skip(1), b);
    }
}

/// The emissions of a chunk are those of its parts, the second part taken
/// in the state that the first has left.
pub proof fn lemma_emissions_concat(started: bool, a: Seq<char>, b: Seq<char>)
    ensures
        emissions(started, a + b) == emissions(started, a) + emissions(
            started_after(started, a),
            b,
        ),
        started_after(started, a + b) == started_after(started_after(started, a), b),
{
    if started {
        lemma_newlines_concat(a, b);
    } else if is_blank(a) {
        lemma_trim_blank_concat(a, b);
    } else {
        lemma_trim_text_concat(a, b);
        lemma_newlines_concat(trimmed(a), b);
    }
}

/// A chunk may be cut anywhere: the second part goes on in the state that
/// the first has left, with the prefixes that the first has left.
pub proof fn lemma_layout_concat(ps: Seq<Seq<char>>, started: bool, a: Seq<char>, b: Seq<char>)
    requires
        emissions(started, a) <= ps.len(),
    ensures
        layout(ps, started, a + b) == layout(ps, started, a) + layout(
            ps.skip(emissions(started, a) as int),
            started_after(started, a),
            b,
        ),
{
    if started {
        lemma_weave_concat(ps, a, b);
    } else if is_blank(a) {
        lemma_trim_blank_concat(a, b);
        assert(ps.skip(0) =~= ps);
    } else {
        let t = trimmed(a);
        lemma_trim_text_concat(a, b);
        lemma_weave_concat(ps.skip(1), t, b);
        let k = newlines(t) as int;
        assert(ps.skip(1).skip(k) =~= ps.skip(1 + k));
    }
}

/// The layout uses only as many prefixes as the chunk has emissions.
pub proof fn lemma_layout_take(ps: Seq<Seq<char>>, started: bool, s: Seq<char>, n: int)
    requires
        emissions(started, s) <= n <= ps.len(),
    ensures
        layout(ps.take(n), started, s) == layout(ps, started, s),
{
    if started {
        lemma_weave_take(ps, s, n);
    } else if !is_blank(s) {
        lemma_weave_take(ps.skip(1), trimmed(s), n - 1);
        assert(ps.take(n).skip(1) =~= ps.skip(1).take(n - 1));
    }
}

} // verus!
