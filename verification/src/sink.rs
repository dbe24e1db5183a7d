//! The destination of the text: anything that accepts a chunk and says
//! whether it took it.

use vstd::prelude::*;

verus! {

/// A sink did not accept a chunk.
#[derive(Debug, Clone, Copy, PartialEq, Eq)]
pub struct Error;

/// What an attempt to append `t` does to the text of a sink: the text only
/// grows, by no more than `t`, and by all of `t` if the attempt succeeds.
pub open spec fn appends(before: Seq<char>, after: Seq<char>, t: Seq<char>, ok: bool) -> bool {
    &&& before.is_prefix_of(after)
    &&& after.is_prefix_of(before + t)
    &&& ok ==> after == before + t
}

/// What `after` holds behind `before`.
pub open spec fn added(before: Seq<char>, after: Seq<char>) -> Seq<char>
    recommends
        before.is_prefix_of(after),
{
    after.skip(before.len() as int)
}

/// A destination for text.
///
/// The model of a sink is the text it has accepted so far. A write that
/// succeeds appends the whole chunk. A write that fails may leave the front
/// part of the chunk behind, and nothing else.
pub trait Write {
    /// The text accepted so far. An implementor says what it is; of a sink
    /// that does not, nothing is known.
    open spec fn written(&self) -> Seq<char> {
        arbitrary()
    }

    /// Whether every write to this sink succeeds, now and from now on. An
    /// implementor that does not say so promises nothing.
    open spec fn never_fails(&self) -> bool {
        false
    }

    /// Appends `s` to the sink.
    fn write_str(&mut self, s: &str) -> (res: Result<(), Error>)
        ensures
            appends(old(self).written(), final(self).written(), s@, res is Ok),
            old(self).never_fails() ==> res is Ok && final(self).never_fails(),
    ;
}

impl Write for String {
    open spec fn written(&self) -> Seq<char> {
        self@
    }

    open spec fn never_fails(&self) -> bool {
        true
    }

    fn write_str(&mut self, s: &str) -> (res: Result<(), Error>) {
        self.append(s);
        Ok(())
    }
}

/// Two attempts in a row, the first of which succeeded, are one attempt to
/// append both texts.
pub proof fn lemma_appends_then(
    x0: Seq<char>,
    x1: Seq<char>,
    x2: Seq<char>,
    t1: Seq<char>,
    t2: Seq<char>,
    ok: bool,
)
    requires
        appends(x0, x1, t1, true),
        appends(x1, x2, t2, ok),
    ensures
        appends(x0, x2, t1 + t2, ok),
{
    assert(x0 + (t1 + t2) =~= (x0 + t1) + t2);
}

/// An attempt on a sink that holds `x` behind `start` stays within `full`
/// if `x` and the text of the attempt do.
pub proof fn lemma_appends_within(
    start: Seq<char>,
    x: Seq<char>,
    after: Seq<char>,
    t: Seq<char>,
    full: Seq<char>,
    ok: bool,
)
    requires
        appends(start + x, after, t, ok),
        (x + t).is_prefix_of(full),
    ensures
        start.is_prefix_of(after),
        after.is_prefix_of(start + full),
{
    let whole = start + x + t;
    assert(whole =~= start + (x + t));
}

} // verus!
