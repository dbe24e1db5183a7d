//! The prefixes: what a writer puts in front of a line, and how.

use crate::sink::{added, appends, lemma_appends_then, Error, Write};
use crate::text::{emissions, layout};
use vstd::prelude::*;

verus! {

/// The character of the decimal digit `d`.
pub open spec fn digit(d: nat) -> char
    recommends
        d < 10,
{
    if d == 0 {
        '0'
    } else if d == 1 {
        '1'
    } else if d == 2 {
        '2'
    } else if d == 3 {
        '3'
    } else if d == 4 {
        '4'
    } else if d == 5 {
        '5'
    } else if d == 6 {
        '6'
    } else if d == 7 {
        '7'
    } else if d == 8 {
        '8'
    } else {
        '9'
    }
}

/// `n` in decimal digits, without leading zeros.
pub open spec fn decimal(n: nat) -> Seq<char>
    decreases n,
{
    if n < 10 {
        seq![digit(n)]
    } else {
        decimal(n / 10).push(digit(n % 10))
    }
}

/// `n` spaces.
pub open spec fn spaces(n: nat) -> Seq<char> {
    Seq::new(n, |i: int| ' ')
}

/// The number of spaces that bring `len` characters to the width of 4.
pub open spec fn padding(len: nat) -> nat {
    if len < 4 {
        (4 - len) as nat
    } else {
        0
    }
}

/// The prefix of a numbered first line: `ind` in decimal, set to the right
/// in a field of 4 characters that grows with the number, then a colon and a
/// space.
pub open spec fn number_text(ind: nat) -> Seq<char> {
    spaces(padding(decimal(ind).len())) + decimal(ind) + seq![':', ' ']
}

/// The prefix of the lines that follow a numbered line: as many spaces as
/// the number's prefix is wide.
pub open spec fn number_blank(ind: nat) -> Seq<char> {
    spaces(number_text(ind).len())
}

/// The line number `k` lines after `line`. Line numbers stop at the largest
/// `usize`.
pub open spec fn advance(line: usize, k: nat) -> usize {
    if line + k <= usize::MAX {
        (line + k) as usize
    } else {
        usize::MAX
    }
}

/// The entries that a custom inserter logs for the prefixes `ps`, written
/// for the lines from line `line` on.
pub open spec fn logged(line: usize, ps: Seq<Seq<char>>) -> Seq<(usize, Seq<char>)> {
    Seq::new(ps.len(), |k: int| (advance(line, k as nat), ps[k]))
}

/// A custom source of prefixes.
///
/// A writer calls `insert` once for each line that it begins, with the
/// number of that line, and the inserter writes the prefix to the sink. It
/// may keep state of its own from call to call.
pub trait Inserter<D: Write + ?Sized> {
    /// The calls that succeeded, oldest first: the line number of each and
    /// the text that it put into the sink. An implementor says what it is; of
    /// an inserter that does not, nothing is known.
    open spec fn log(&self) -> Seq<(usize, Seq<char>)> {
        arbitrary()
    }

    /// Whether every call of this inserter succeeds on a sink that never
    /// fails, now and from now on. An implementor that does not say so
    /// promises nothing.
    open spec fn never_fails(&self) -> bool {
        false
    }

    /// Writes the prefix of line `line` to `f`. An inserter only adds to the
    /// text of the sink.
    fn insert(&mut self, line: usize, f: &mut D) -> (res: Result<(), Error>)
        ensures
            old(f).written().is_prefix_of(final(f).written()),
            res is Ok ==> final(self).log() == old(self).log().push(
                (line, added(old(f).written(), final(f).written())),
            ),
            res is Err ==> final(self).log() == old(self).log(),
            old(self).never_fails() && old(f).never_fails() ==> {
                &&& res is Ok
                &&& final(self).never_fails()
                &&& final(f).never_fails()
            },
    ;
}

/// A borrowed [`Inserter`], as [`Format::Custom`] holds it.
#[verifier::reject_recursive_types(D)]
pub struct InserterMut<'a, D: Write + ?Sized>(pub &'a mut dyn Inserter<D>);

/// The supported ways to indent.
#[verifier::reject_recursive_types(D)]
pub enum Format<'a, D: Write + ?Sized> {
    /// The same marker in front of every line.
    Uniform {
        /// The marker.
        indentation: &'static str,
    },
    /// A number in front of the first line, and spaces of the same width in
    /// front of the others.
    Numbered {
        /// The number in front of the first line.
        ind: usize,
    },
    /// Whatever a custom inserter writes, line by line.
    Custom {
        /// The inserter.
        inserter: InserterMut<'a, D>,
    },
}

impl<'a, D: Write + ?Sized> Format<'a, D> {
    /// Whether the prefixes come from a custom inserter.
    pub open spec fn is_custom(&self) -> bool {
        self is Custom
    }

    /// The prefix of line `line`, for the formats that fix it.
    pub open spec fn prefix(&self, line: usize) -> Seq<char>
        recommends
            !self.is_custom(),
    {
        match self {
            Format::Uniform { indentation } => indentation@,
            Format::Numbered { ind } => if line == 0 {
                number_text(*ind as nat)
            } else {
                number_blank(*ind as nat)
            },
            Format::Custom { .. } => Seq::empty(),
        }
    }

    /// The prefixes of `n` lines in a row, the first of which is line `line`.
    pub open spec fn prefixes(&self, line: usize, n: nat) -> Seq<Seq<char>>
        recommends
            !self.is_custom(),
    {
        Seq::new(n, |k: int| self.prefix(advance(line, k as nat)))
    }

    /// What a writer with this format appends to its sink for the chunk `s`,
    /// where `started` says whether it has started its first line, and
    /// `line` is the number of the next line to begin.
    pub open spec fn output(&self, started: bool, line: usize, s: Seq<char>) -> Seq<char>
        recommends
            !self.is_custom(),
    {
        layout(self.prefixes(line, emissions(started, s)), started, s)
    }

    /// Whether writing a prefix succeeds on every sink that never fails, now
    /// and from now on: always but for a custom inserter, which says so
    /// itself.
    pub open spec fn never_fails(&self) -> bool {
        match self {
            Format::Custom { inserter } => inserter.0.never_fails(),
            _ => true,
        }
    }

    /// The log of the custom inserter; empty for the other formats.
    pub open spec fn log(&self) -> Seq<(usize, Seq<char>)> {
        match self {
            Format::Custom { inserter } => inserter.0.log(),
            _ => Seq::empty(),
        }
    }

    /// The prefixes of the `n` lines from line `line` on, where `after` is
    /// this format once it has emitted them.
    pub open spec fn emitted(&self, after: &Self, line: usize, n: nat) -> Seq<Seq<char>> {
        if self.is_custom() {
            Seq::new(n, |k: int| after.log()[self.log().len() + k].1)
        } else {
            self.prefixes(line, n)
        }
    }

    /// Whether `after` is this format once it has emitted the prefixes of
    /// the `n` lines from line `line` on: a custom inserter has logged one
    /// call for each of them, in order, and the other formats do not change.
    pub open spec fn emits(&self, after: &Self, line: usize, n: nat) -> bool {
        if self.is_custom() {
            &&& after.is_custom()
            &&& after.log() == self.log() + logged(line, self.emitted(after, line, n))
        } else {
            after == self
        }
    }

    /// Writes the prefix of line `line` to `f`.
    ///
    /// `Uniform` and `Numbered` append their prefix; if the sink fails on the
    /// way, the front part of the prefix may be left in it. `Custom` hands the
    /// call to its inserter, which then has one more entry in its log.
    pub fn insert_indentation(&mut self, line: usize, f: &mut D) -> (res: Result<(), Error>)
        ensures
            final(self).is_custom() == old(self).is_custom(),
            old(f).written().is_prefix_of(final(f).written()),
            !old(self).is_custom() ==> {
                &&& *final(self) == *old(self)
                &&& appends(
                    old(f).written(),
                    final(f).written(),
                    old(self).prefix(line),
                    res is Ok,
                )
            },
            old(self).never_fails() && old(f).never_fails() ==> {
                &&& res is Ok
                &&& final(self).never_fails()
                &&& final(f).never_fails()
            },
            old(self).is_custom() && res is Ok ==> final(self).log() == old(self).log().push(
                (line, added(old(f).written(), final(f).written())),
            ),
            res is Err ==> final(self).log() == old(self).log(),
            old(self).is_custom() ==> &*final(final(self)->inserter.0)
                == &*final(old(self)->inserter.0),
    {
        match self {
            Format::Uniform { indentation } => {
                let marker: &'static str = *indentation;
                f.write_str(marker)
            },
            Format::Numbered { ind } => {
                let n: usize = *ind;
                if line == 0 {
                    write_number(n, f)
                } else {
                    write_blank(n, f)
                }
            },
            Format::Custom { inserter } => inserter.0.insert(line, f),
        }
    }
}

/// The digit `d` as a string.
fn digit_str(d: usize) -> (r: &'static str)
    requires
        d < 10,
    ensures
        r@ == seq![digit(d as nat)],
{
    proof {
        reveal_strlit("0");
        reveal_strlit("1");
        reveal_strlit("2");
        reveal_strlit("3");
        reveal_strlit("4");
        reveal_strlit("5");
        reveal_strlit("6");
        reveal_strlit("7");
        reveal_strlit("8");
        reveal_strlit("9");
    }
    match d {
        0 => "0",
        1 => "1",
        2 => "2",
        3 => "3",
        4 => "4",
        5 => "5",
        6 => "6",
        7 => "7",
        8 => "8",
        _ => "9",
    }
}

/// A number has at most as many digits as its tenth part, and one more.
proof fn lemma_decimal_len(n: nat)
    ensures
        1 <= decimal(n).len() <= n / 10 + 1,
    decreases n,
{
    if n >= 10 {
        lemma_decimal_len(n / 10);
    }
}

/// The number of decimal digits of `n`.
fn decimal_len(n: usize) -> (len: usize)
    ensures
        len == decimal(n as nat).len(),
    decreases n,
{
    if n < 10 {
        1
    } else {
        proof {
            lemma_decimal_len((n / 10) as nat);
        }
        decimal_len(n / 10) + 1
    }
}

/// Writes `n` in decimal digits.
fn write_decimal<D: Write + ?Sized>(n: usize, f: &mut D) -> (res: Result<(), Error>)
    ensures
        appends(old(f).written(), final(f).written(), decimal(n as nat), res is Ok),
        old(f).never_fails() ==> res is Ok && final(f).never_fails(),
    decreases n,
{
    let ghost start = f.written();
    let last = digit_str(n % 10);
    if n >= 10 {
        write_decimal(n / 10, f)?;
        let ghost mid = f.written();
        let res = f.write_str(last);
        proof {
            lemma_appends_then(
                start,
                mid,
                f.written(),
                decimal((n / 10) as nat),
                last@,
                res is Ok,
            );
            assert(decimal((n / 10) as nat) + last@ =~= decimal(n as nat));
        }
        res
    } else {
        f.write_str(last)
    }
}

/// Up to eight spaces as a string.
fn blank_str(n: usize) -> (r: &'static str)
    requires
        n <= 8,
    ensures
        r@ == spaces(n as nat),
{
    proof {
        reveal_strlit("");
        reveal_strlit(" ");
        reveal_strlit("  ");
        reveal_strlit("   ");
        reveal_strlit("    ");
        reveal_strlit("     ");
        reveal_strlit("      ");
        reveal_strlit("       ");
        reveal_strlit("        ");
    }
    match n {
        0 => "",
        1 => " ",
        2 => "  ",
        3 => "   ",
        4 => "    ",
        5 => "     ",
        6 => "      ",
        7 => "       ",
        _ => "        ",
    }
}

/// Writes `n` spaces, up to eight at a time.
fn write_spaces<D: Write + ?Sized>(n: usize, f: &mut D) -> (res: Result<(), Error>)
    ensures
        appends(old(f).written(), final(f).written(), spaces(n as nat), res is Ok),
        old(f).never_fails() ==> res is Ok && final(f).never_fails(),
{
    let ghost start = f.written();
    let mut left: usize = n;
    while left > 8
        invariant
            left <= n,
            start == old(f).written(),
            f.written() == start + spaces((n - left) as nat),
            old(f).never_fails() ==> f.never_fails(),
        decreases left,
    {
        f.write_str(blank_str(8))?;
        left -= 8;
    }
    let ghost mid = f.written();
    let res = f.write_str(blank_str(left));
    proof {
        lemma_spaces_split((n - left) as nat, n as nat);
        lemma_appends_then(
            start,
            mid,
            f.written(),
            spaces((n - left) as nat),
            spaces(left as nat),
            res is Ok,
        );
    }
    res
}

/// Spaces in a row add up.
proof fn lemma_spaces_split(k: nat, n: nat)
    requires
        k <= n,
    ensures
        spaces(k) + spaces((n - k) as nat) == spaces(n),
{
}

/// Writes the prefix of a numbered first line.
fn write_number<D: Write + ?Sized>(ind: usize, f: &mut D) -> (res: Result<(), Error>)
    ensures
        appends(old(f).written(), final(f).written(), number_text(ind as nat), res is Ok),
        old(f).never_fails() ==> res is Ok && final(f).never_fails(),
{
    let ghost start = f.written();
    let ghost pad = spaces(padding(decimal(ind as nat).len()));
    let ghost digits = decimal(ind as nat);
    let len = decimal_len(ind);
    proof {
        reveal_strlit(": ");
        assert(": "@ =~= seq![':', ' ']);
    }
    if len < 4 {
        f.write_str(blank_str(4 - len))?;
    }
    let ghost mid = f.written();
    let res = write_decimal(ind, f);
    proof {
        lemma_appends_then(start, mid, f.written(), pad, digits, res is Ok);
    }
    res?;
    let ghost mid = f.written();
    let res = f.write_str(": ");
    proof {
        lemma_appends_then(start, mid, f.written(), pad + digits, ": "@, res is Ok);
    }
    res
}

/// Writes the prefix of a line that follows a numbered line.
fn write_blank<D: Write + ?Sized>(ind: usize, f: &mut D) -> (res: Result<(), Error>)
    ensures
        appends(old(f).written(), final(f).written(), number_blank(ind as nat), res is Ok),
        old(f).never_fails() ==> res is Ok && final(f).never_fails(),
{
    let len = decimal_len(ind);
    proof {
        lemma_decimal_len(ind as nat);
    }
    let width: usize = if len < 4 {
        6
    } else {
        len + 2
    };
    write_spaces(width, f)
}

impl<'a, D: Write + ?Sized> Format<'a, D> {
    /// Where the log of a custom inserter has grown by the entries of the
    /// prefixes `ps`, and another format has stayed what it was with `ps` its
    /// prefixes, the format has emitted `ps` on the way to `after`.
    pub proof fn lemma_emitted(&self, after: &Self, line: usize, ps: Seq<Seq<char>>)
        requires
            self.is_custom() == after.is_custom(),
            !self.is_custom() ==> after == self && ps == self.prefixes(line, ps.len()),
            self.is_custom() ==> after.log() == self.log() + logged(line, ps),
        ensures
            self.emitted(after, line, ps.len()) == ps,
            self.emits(after, line, ps.len()),
    {
        if self.is_custom() {
            assert(self.emitted(after, line, ps.len()) =~= ps);
        }
    }
}

} // verus!
