//! The indenting writer.

use crate::format::{advance, logged, Format};
use crate::pieces::{
    feed, lemma_blank_part, lemma_layout_piece, lemma_layout_prefix, piece_emits, piece_layout,
    split_line,
};
use crate::sink::{appends, lemma_appends_then, lemma_appends_within, Error, Write};
use crate::text::{
    emissions, is_blank, layout, lemma_emissions_concat, lemma_newlines_none, started_after,
};
use vstd::prelude::*;

verus! {

/// A writer that indents what passes through it on the way to a sink.
///
/// The writer borrows its sink and holds no text. It knows whether the first
/// line has begun, how many lines it has begun so far, and how to indent.
/// One sink takes one writer at a time: the writer does not see what reaches
/// the sink on another way.
///
/// A writer is a sink itself, whose text is what it has taken, so that
/// writers can stand in a row.
///
/// In contracts, [`Indented::sink`] is the sink as it is now. The sink that
/// the caller gets back is `final(w.borrowed())`; once the writer `w` is no
/// longer used, [`Indented::lemma_finished`] says that the two are one.
#[verifier::reject_recursive_types(D)]
pub struct Indented<'a, D: Write + ?Sized> {
    inner: &'a mut D,
    started: bool,
    line: usize,
    format: Format<'a, D>,
    taken: Ghost<Seq<char>>,
}

/// A writer to `f` that indents by four spaces.
pub fn indented<'a, D: Write + ?Sized>(f: &'a mut D) -> (r: Indented<'a, D>)
    ensures
        r.sink() == &*old(f),
        &*final(r.borrowed()) == &*final(f),
        !r.has_started(),
        r.line() == 0,
        r.format() is Uniform,
        r.format()->indentation == "    ",
        r.written() == Seq::<char>::empty(),
{
    Indented {
        inner: f,
        started: false,
        line: 0,
        format: Format::Uniform { indentation: "    " },
        taken: Ghost(Seq::empty()),
    }
}

impl<'a, D: Write + ?Sized> Indented<'a, D> {
    /// The borrow of the sink.
    pub closed spec fn borrowed(&self) -> &'a mut D {
        self.inner
    }

    /// The sink as it is now.
    pub open spec fn sink(&self) -> &D {
        &*self.borrowed()
    }

    /// Whether the first line has begun.
    pub closed spec fn has_started(&self) -> bool {
        self.started
    }

    /// The number of the next line to begin.
    pub closed spec fn line(&self) -> usize {
        self.line
    }

    /// The way to indent.
    pub closed spec fn format(&self) -> Format<'a, D> {
        self.format
    }

    /// What the writer appends to its sink for the chunk `s`, where its
    /// format fixes the prefixes.
    pub open spec fn output(&self, s: Seq<char>) -> Seq<char>
        recommends
            !self.format().is_custom(),
    {
        self.format().output(self.has_started(), self.line(), s)
    }

    /// Whether `other` is this writer but for its format.
    pub open spec fn same_but_format(&self, other: &Self) -> bool {
        &&& other.borrowed() == self.borrowed()
        &&& other.has_started() == self.has_started()
        &&& other.line() == self.line()
        &&& other.written() == self.written()
    }

    /// A writer that is no longer used leaves its sink as it is.
    pub proof fn lemma_finished(self)
        requires
            has_resolved(self),
        ensures
            has_resolved(self.borrowed()),
            self.format().is_custom() ==> has_resolved(self.format()->inserter.0),
    {
    }

    /// The same writer with the format `Format::Numbered` and the number
    /// `ind`.
    pub fn ind(self, ind: usize) -> (r: Self)
        ensures
            self.same_but_format(&r),
            r.format() is Numbered,
            r.format()->ind == ind,
    {
        self.with_format(Format::Numbered { ind })
    }

    /// The same writer with the format `format`.
    ///
    /// On a writer that has begun to write, the format holds from the next
    /// prefix on; the count of lines goes on.
    pub fn with_format(self, format: Format<'a, D>) -> (r: Self)
        ensures
            self.same_but_format(&r),
            r.format() == format,
    {
        let mut this = self;
        this.format = format;
        this
    }

    /// The line number behind `line`.
    fn next_line(line: usize) -> (r: usize)
        ensures
            r == advance(line, 1),
    {
        if line < usize::MAX {
            line + 1
        } else {
            line
        }
    }

    /// The prefix that the writer has emitted on the way from `self` to
    /// `after`, if it has emitted one.
    closed spec fn prefix_to(&self, after: &Self) -> Seq<char> {
        if self.format.is_custom() {
            after.format.log().last().1
        } else {
            self.format.prefix(self.line)
        }
    }

    /// Writes one piece to the sink: a line feed unless `same_line`, then the
    /// prefix of the next line if `prefix`, then `text`.
    fn put(&mut self, same_line: bool, prefix: bool, text: &str) -> (res: Result<(), Error>)
        ensures
            &*final(final(self).inner) == &*final(old(self).inner),
            old(self).format.is_custom() ==> &*final(final(self).format->inserter.0)
                == &*final(old(self).format->inserter.0),
            final(self).started == old(self).started,
            final(self).taken == old(self).taken,
            old(self).inner.written().is_prefix_of(final(self).inner.written()),
            old(self).format.log().is_prefix_of(final(self).format.log()),
            final(self).format.is_custom() == old(self).format.is_custom(),
            !old(self).format.is_custom() ==> {
                &&& final(self).format == old(self).format
                &&& appends(
                    old(self).inner.written(),
                    final(self).inner.written(),
                    feed(same_line) + (if prefix {
                        old(self).format.prefix(old(self).line)
                    } else {
                        Seq::empty()
                    }) + text@,
                    res is Ok,
                )
            },
            old(self).inner.never_fails() && old(self).format.never_fails() ==> {
                &&& res is Ok
                &&& final(self).inner.never_fails()
                &&& final(self).format.never_fails()
            },
            res is Ok && prefix ==> {
                let p = old(self).prefix_to(final(self));
                &&& final(self).line == advance(old(self).line, 1)
                &&& final(self).inner.written() == old(self).inner.written() + feed(same_line) + p
                    + text@
                &&& old(self).format.is_custom() ==> final(self).format.log()
                    == old(self).format.log().push((old(self).line, p))
            },
            res is Ok && !prefix ==> {
                &&& final(self).line == old(self).line
                &&& final(self).inner.written() == old(self).inner.written() + feed(same_line) + text@
                &&& final(self).format.log() == old(self).format.log()
            },
            res is Err ==> {
                ||| final(self).format.log() == old(self).format.log()
                ||| prefix && final(self).format.log() == old(self).format.log().push(
                    (old(self).line, old(self).prefix_to(final(self))),
                )
            },
    {
        let ghost start = self.inner.written();
        let ghost lead = feed(same_line);
        let ghost pre = if prefix {
            self.format.prefix(self.line)
        } else {
            Seq::empty()
        };
        let ghost plain = !self.format.is_custom();
        proof {
            reveal_strlit("\n");
            assert("\n"@ =~= seq!['\n']);
        }
        if !same_line {
            self.inner.write_str("\n")?;
        }
        let ghost fed = self.inner.written();
        if prefix {
            let res = self.format.insert_indentation(self.line, self.inner);
            proof {
                if plain {
                    lemma_appends_then(start, fed, self.inner.written(), lead, pre, res is Ok);
                }
            }
            res?;
            self.line = Self::next_line(self.line);
        }
        let ghost led = self.inner.written();
        let res = self.inner.write_str(text);
        proof {
            if plain {
                lemma_appends_then(start, led, self.inner.written(), lead + pre, text@, res is Ok);
            }
        }
        res
    }

    /// Whether `after` is this writer once it has taken the piece `piece`;
    /// `first` says that the piece is the first of its chunk.
    closed spec fn piece_taken(&self, after: &Self, first: bool, piece: Seq<char>) -> bool {
        let p = self.prefix_to(after);
        &&& after.taken == self.taken
        &&& after.started == (self.started || !is_blank(piece))
        &&& after.inner.written() == self.inner.written() + piece_layout(
            self.started,
            first,
            p,
            piece,
        )
        &&& after.format.is_custom() == self.format.is_custom()
        &&& !self.format.is_custom() ==> after.format == self.format
        &&& if piece_emits(self.started, first, piece) {
            &&& after.line == advance(self.line, 1)
            &&& self.format.is_custom() ==> after.format.log() == self.format.log().push(
                (self.line, p),
            )
        } else {
            &&& after.line == self.line
            &&& after.format.log() == self.format.log()
        }
        &&& self.inner.never_fails() && self.format.never_fails() ==> {
            &&& after.inner.never_fails()
            &&& after.format.never_fails()
        }
    }

    /// Whether `after` is this writer once it has failed on the piece
    /// `piece`: it had something to write, the sink holds no more than the
    /// front part of that, and a custom inserter has logged the prefix if it
    /// has written it.
    closed spec fn piece_failed(&self, after: &Self, first: bool, piece: Seq<char>) -> bool {
        &&& after.taken == self.taken
        &&& self.started || !is_blank(piece)
        &&& !(self.inner.never_fails() && self.format.never_fails())
        &&& self.inner.written().is_prefix_of(after.inner.written())
        &&& after.format.is_custom() == self.format.is_custom()
        &&& if self.format.is_custom() {
            ||| after.format.log() == self.format.log()
            ||| piece_emits(self.started, first, piece) && after.format.log()
                == self.format.log().push((self.line, self.prefix_to(after)))
        } else {
            &&& after.format == self.format
            &&& appends(
                self.inner.written(),
                after.inner.written(),
                piece_layout(self.started, first, self.format.prefix(self.line), piece),
                false,
            )
        }
    }

    /// Takes one piece of a chunk, that is a stretch of it without a line
    /// feed; `first` says that it is the first of its chunk, so that no line
    /// feed stands in front of it.
    fn write_piece(&mut self, first: bool, piece: &str) -> (res: Result<(), Error>)
        ensures
            &*final(final(self).inner) == &*final(old(self).inner),
            old(self).format.is_custom() ==> &*final(final(self).format->inserter.0)
                == &*final(old(self).format->inserter.0),
            res is Ok ==> old(self).piece_taken(final(self), first, piece@),
            res is Err ==> old(self).piece_failed(final(self), first, piece@),
    {
        let ghost start = self.inner.written();
        if self.started {
            let res = self.put(first, !first, piece);
            proof {
                let p = old(self).prefix_to(self);
                if first {
                    assert(start + feed(first) + piece@ =~= start + piece@);
                } else {
                    assert(start + feed(first) + p + piece@ =~= start + (seq!['\n'] + p + piece@));
                }
            }
            res
        } else {
            let text = piece.trim_start();
            if text.is_empty() {
                assert(start + Seq::<char>::empty() =~= start);
                Ok(())
            } else {
                self.started = true;
                let res = self.put(true, true, text);
                proof {
                    let p = old(self).prefix_to(self);
                    assert(start + feed(true) + p + text@ =~= start + (p + text@));
                }
                res
            }
        }
    }

    /// Where this writer stands in the chunk `s`, which it takes as the
    /// writer `before`: `done` is the part that it has taken, up to the end
    /// of a piece, `rest` the part behind the line feed that follows, or all
    /// of the chunk as long as `first` holds, and `ps` are the prefixes that
    /// it has emitted.
    closed spec fn within(
        &self,
        before: &Self,
        s: Seq<char>,
        done: Seq<char>,
        first: bool,
        rest: Seq<char>,
        ps: Seq<Seq<char>>,
    ) -> bool {
        &&& first ==> done.len() == 0
        &&& s == done + feed(first) + rest
        &&& ps.len() == emissions(before.started, done)
        &&& self.taken == before.taken
        &&& self.started == started_after(before.started, done)
        &&& self.line == advance(before.line, ps.len())
        &&& self.inner.written() == before.inner.written() + layout(ps, before.started, done)
        &&& self.format.is_custom() == before.format.is_custom()
        &&& if before.format.is_custom() {
            self.format.log() == before.format.log() + logged(before.line, ps)
        } else {
            self.format == before.format && ps == before.format.prefixes(before.line, ps.len())
        }
        &&& before.inner.never_fails() && before.format.never_fails() ==> {
            &&& self.inner.never_fails()
            &&& self.format.never_fails()
        }
    }

    /// The prefixes `ps` and the one that the writer has emitted for the
    /// piece `piece` on the way to `after`, if it has emitted one.
    closed spec fn grown(
        &self,
        after: &Self,
        first: bool,
        piece: Seq<char>,
        ps: Seq<Seq<char>>,
    ) -> Seq<Seq<char>> {
        if piece_emits(self.started, first, piece) {
            ps.push(self.prefix_to(after))
        } else {
            ps
        }
    }

    /// A writer stands at the start of the chunk that it is given.
    proof fn lemma_within_start(&self, s: Seq<char>)
        ensures
            self.within(self, s, Seq::empty(), true, s, Seq::empty()),
    {
        assert(s =~= Seq::<char>::empty() + feed(true) + s);
        assert(self.inner.written() + Seq::<char>::empty() =~= self.inner.written());
        assert(self.format.log() + logged(self.line, Seq::empty()) =~= self.format.log());
        assert(Seq::<Seq<char>>::empty() =~= self.format.prefixes(self.line, 0));
    }

    /// A writer that has taken a piece and the line feed behind it stands
    /// behind them.
    proof fn lemma_within_next(
        &self,
        before: &Self,
        after: &Self,
        s: Seq<char>,
        done: Seq<char>,
        first: bool,
        piece: Seq<char>,
        tail: Seq<char>,
        ps: Seq<Seq<char>>,
    )
        requires
            self.within(before, s, done, first, piece + seq!['\n'] + tail, ps),
            !piece.contains('\n'),
            self.piece_taken(after, first, piece),
        ensures
            after.within(
                before,
                s,
                done + feed(first) + piece,
                false,
                tail,
                self.grown(after, first, piece, ps),
            ),
    {
        let p = self.prefix_to(after);
        let here = done + feed(first) + piece;
        let laid = layout(ps, before.started, done);
        let more = piece_layout(self.started, first, p, piece);
        lemma_newlines_none(piece);
        lemma_layout_piece(ps, before.started, done, first, p, piece);
        assert(before.inner.written() + laid + more =~= before.inner.written() + (laid + more));
        assert(s =~= here + feed(false) + tail);
        if self.format.is_custom() {
            assert(after.format.log() =~= before.format.log() + logged(
                before.line,
                self.grown(after, first, piece, ps),
            ));
        } else {
            assert(self.grown(after, first, piece, ps) =~= before.format.prefixes(
                before.line,
                self.grown(after, first, piece, ps).len(),
            ));
        }
    }

    /// A writer that has taken the last piece of a chunk has taken the
    /// chunk.
    proof fn lemma_within_last(
        &self,
        before: &Self,
        after: &Self,
        s: Seq<char>,
        done: Seq<char>,
        first: bool,
        piece: Seq<char>,
        ps: Seq<Seq<char>>,
    )
        requires
            self.within(before, s, done, first, piece, ps),
            !piece.contains('\n'),
            self.piece_taken(after, first, piece),
        ensures
            ({
                let n = emissions(before.has_started(), s);
                let qs = before.format().emitted(&after.format(), before.line(), n);
                &&& after.written() == before.written()
                &&& after.has_started() == started_after(before.has_started(), s)
                &&& after.line() == advance(before.line(), n)
                &&& before.format().emits(&after.format(), before.line(), n)
                &&& after.sink().written() == before.sink().written() + layout(
                    qs,
                    before.has_started(),
                    s,
                )
                &&& before.never_fails() ==> after.never_fails()
            }),
    {
        let p = self.prefix_to(after);
        let qs = self.grown(after, first, piece, ps);
        let laid = layout(ps, before.started, done);
        let more = piece_layout(self.started, first, p, piece);
        lemma_newlines_none(piece);
        lemma_layout_piece(ps, before.started, done, first, p, piece);
        assert(before.inner.written() + laid + more =~= before.inner.written() + (laid + more));
        if self.format.is_custom() {
            assert(after.format.log() =~= before.format.log() + logged(before.line, qs));
        } else {
            assert(qs =~= before.format.prefixes(before.line, qs.len()));
        }
        before.format.lemma_emitted(&after.format, before.line, qs);
    }

    /// A writer that has failed on a piece has left in the sink no more than
    /// the front part of what the chunk would have put there, and its format
    /// has emitted the prefixes of the chunk so far; `next` is the part of
    /// the chunk behind the piece.
    proof fn lemma_within_fails(
        &self,
        before: &Self,
        after: &Self,
        s: Seq<char>,
        done: Seq<char>,
        first: bool,
        piece: Seq<char>,
        next: Seq<char>,
        ps: Seq<Seq<char>>,
    )
        requires
            self.within(before, s, done, first, piece + next, ps),
            !piece.contains('\n'),
            self.piece_failed(after, first, piece),
        ensures
            after.written() == before.written(),
            before.sink().written().is_prefix_of(after.sink().written()),
            before.has_started() || !is_blank(s),
            !before.never_fails(),
            !before.format().is_custom() ==> after.sink().written().is_prefix_of(
                before.sink().written() + before.output(s),
            ),
            exists|m: nat|
                m <= emissions(before.has_started(), s) && #[trigger] before.format().emits(
                    &after.format(),
                    before.line(),
                    m,
                ),
    {
        let started = before.started;
        let line = before.line;
        let start = before.inner.written();
        let here = done + feed(first) + piece;
        let p = self.prefix_to(after);
        assert(s =~= here + next);
        lemma_newlines_none(piece);
        lemma_emissions_concat(started, here, next);
        lemma_layout_piece(ps, started, done, first, p, piece);
        if !started && is_blank(s) {
            assert(s =~= (done + feed(first)) + piece + next);
            lemma_blank_part(done + feed(first), piece, next);
            assert(s =~= Seq::<char>::empty() + done + (feed(first) + piece + next));
            lemma_blank_part(Seq::empty(), done, feed(first) + piece + next);
        }
        if before.format.is_custom() {
            let qs = if after.format.log() == self.format.log() {
                ps
            } else {
                ps.push(p)
            };
            assert(after.format.log() =~= before.format.log() + logged(line, qs));
            before.format.lemma_emitted(&after.format, line, qs);
            assert(before.format().emits(&after.format(), before.line(), qs.len()));
        } else {
            let all = before.format.prefixes(line, emissions(started, s));
            let pre = before.format.prefix(self.line);
            let qs = if piece_emits(self.started, first, piece) {
                ps.push(pre)
            } else {
                ps
            };
            lemma_layout_piece(ps, started, done, first, pre, piece);
            lemma_layout_prefix(all, started, here, next);
            assert(qs =~= all.take(qs.len() as int));
            lemma_appends_within(
                start,
                layout(ps, started, done),
                after.inner.written(),
                piece_layout(self.started, first, pre, piece),
                layout(all, started, s),
                false,
            );
            assert(before.format().emits(&after.format(), before.line(), 0));
        }
    }
}

impl<'a, D: Write + ?Sized> Write for Indented<'a, D> {
    /// The text that the writer has taken.
    closed spec fn written(&self) -> Seq<char> {
        self.taken@
    }

    /// A writer never fails if neither its sink nor its format does.
    open spec fn never_fails(&self) -> bool {
        self.sink().never_fails() && self.format().never_fails()
    }

    /// Takes the chunk `s`: passes it on to the sink, with a prefix in front
    /// of every line that begins in it.
    ///
    /// As long as the first line has not begun, white space is dropped, line
    /// feeds included; the first other character begins the first line.
    /// From then on every line feed is passed on and begins the next line.
    /// What the sink gets for the chunk is [`layout`] of the prefixes and
    /// the chunk.
    ///
    /// The call ends at the first failure of the sink or of a custom
    /// inserter, and returns it. Then the sink holds what it held, and the
    /// front part of what it would have got where the format fixes the
    /// prefixes; a custom inserter has logged the prefixes that it has
    /// written. Whether the first line has begun, and the number of the
    /// next line, are not defined then.
    ///
    /// The call succeeds where nothing is to be written, and where neither
    /// the sink nor the format ever fails.
    fn write_str(&mut self, s: &str) -> (res: Result<(), Error>)
        ensures
            &*final(final(self).borrowed()) == &*final(old(self).borrowed()),
            old(self).format().is_custom() ==> &*final(final(self).format()->inserter.0)
                == &*final(old(self).format()->inserter.0),
            old(self).sink().written().is_prefix_of(final(self).sink().written()),
            !old(self).has_started() && is_blank(s@) ==> res is Ok,
            res is Ok ==> {
                let n = emissions(old(self).has_started(), s@);
                let ps = old(self).format().emitted(&final(self).format(), old(self).line(), n);
                &&& final(self).has_started() == started_after(old(self).has_started(), s@)
                &&& final(self).line() == advance(old(self).line(), n)
                &&& old(self).format().emits(&final(self).format(), old(self).line(), n)
                &&& final(self).sink().written() == old(self).sink().written() + layout(
                    ps,
                    old(self).has_started(),
                    s@,
                )
            },
            res is Err && !old(self).format().is_custom() ==> final(self).sink().written()
                .is_prefix_of(old(self).sink().written() + old(self).output(s@)),
            res is Err ==> exists|m: nat|
                m <= emissions(old(self).has_started(), s@) && #[trigger] old(self).format().emits(
                    &final(self).format(),
                    old(self).line(),
                    m,
                ),
    {
        let ghost mut done: Seq<char> = Seq::empty();
        let ghost mut ps: Seq<Seq<char>> = Seq::empty();
        let mut rest: &str = s;
        let mut first = true;
        proof {
            self.lemma_within_start(s@);
        }
        loop
            invariant
                self.within(old(self), s@, done, first, rest@, ps),
                &*final(self.inner) == &*final(old(self).inner),
                old(self).format.is_custom() ==> &*final(self.format->inserter.0)
                    == &*final(old(self).format->inserter.0),
            decreases rest@.len(),
        {
            let (piece, more) = match split_line(rest) {
                Some((head, tail)) => (head, Some(tail)),
                None => (rest, None),
            };
            let ghost now = *self;
            let ghost next = match more {
                Some(tail) => seq!['\n'] + tail@,
                None => Seq::empty(),
            };
            assert(rest@ =~= piece@ + next);
            let res = self.write_piece(first, piece);
            if res.is_err() {
                proof {
                    now.lemma_within_fails(old(self), self, s@, done, first, piece@, next, ps);
                }
                return res;
            }
            match more {
                None => {
                    proof {
                        now.lemma_within_last(old(self), self, s@, done, first, piece@, ps);
                    }
                    self.taken = Ghost(self.taken@ + s@);
                    return Ok(());
                },
                Some(tail) => {
                    proof {
                        assert(rest@ =~= piece@ + seq!['\n'] + tail@);
                        now.lemma_within_next(
                            old(self),
                            self,
                            s@,
                            done,
                            first,
                            piece@,
                            tail@,
                            ps,
                        );
                        ps = now.grown(self, first, piece@, ps);
                        done = done + feed(first) + piece@;
                    }
                    rest = tail;
                    first = false;
                },
            }
        }
    }
}

} // verus!
