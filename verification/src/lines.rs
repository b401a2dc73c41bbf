//! Newline-delimited input, taken one byte at a time.

use vstd::prelude::*;

verus! {

/// Longest line kept; what a longer one has beyond it is dropped.
pub const LINE_MAX: usize = 1024;

/// The line being read.
pub struct LineBuffer {
    line: Vec<u8>,
}

impl View for LineBuffer {
    type V = Seq<u8>;

    closed spec fn view(&self) -> Seq<u8> {
        self.line@
    }
}

/// The line once a byte has come in. A newline ends it; zero bytes are noise.
pub open spec fn extended(line: Seq<u8>, b: u8) -> Seq<u8> {
    if b == 10 {
        Seq::empty()
    } else if b != 0 && line.len() < LINE_MAX {
        line.push(b)
    } else {
        line
    }
}

/// The byte completes a line: empty ones do not count.
pub open spec fn completes(line: Seq<u8>, b: u8) -> bool {
    b == 10 && line.len() > 0
}

/// The line after a run of bytes.
pub open spec fn line_after(line: Seq<u8>, bytes: Seq<u8>) -> Seq<u8>
    decreases bytes.len(),
{
    if bytes.len() == 0 {
        line
    } else {
        extended(line_after(line, bytes.drop_last()), bytes.last())
    }
}

/// The lines a run of bytes completes.
pub open spec fn lines_in(line: Seq<u8>, bytes: Seq<u8>) -> Seq<Seq<u8>>
    decreases bytes.len(),
{
    if bytes.len() == 0 {
        Seq::empty()
    } else {
        let before = line_after(line, bytes.drop_last());
        let rest = lines_in(line, bytes.drop_last());
        if completes(before, bytes.last()) {
            rest.push(before)
        } else {
            rest
        }
    }
}

impl LineBuffer {
    pub fn new() -> (r: LineBuffer)
        ensures
            r@ == Seq::<u8>::empty(),
    {
        LineBuffer { line: Vec::new() }
    }

    /// Takes in one byte, and returns the line it completes.
    pub fn push(&mut self, b: u8) -> (r: Option<Vec<u8>>)
        ensures
            final(self)@ == extended(old(self)@, b),
            completes(old(self)@, b) ==> r is Some && r->0@ == old(self)@,
            !completes(old(self)@, b) ==> r is None,
    {
        if b == 10 {
            if self.line.len() > 0 {
                let mut done: Vec<u8> = Vec::new();
                core::mem::swap(&mut done, &mut self.line);
                return Some(done);
            }
            assert(self@ =~= Seq::empty());
        } else if b != 0 && self.line.len() < LINE_MAX {
            self.line.push(b);
        }
        None
    }

    /// Takes in what one read gave, and returns the lines it completes.
    pub fn push_all(&mut self, bytes: &[u8]) -> (lines: Vec<Vec<u8>>)
        ensures
            final(self)@ == line_after(old(self)@, bytes@),
            lines@.map_values(|l: Vec<u8>| l@) == lines_in(old(self)@, bytes@),
    {
        let mut lines: Vec<Vec<u8>> = Vec::new();
        let mut i: usize = 0;
        assert(lines@.map_values(|l: Vec<u8>| l@) =~= lines_in(old(self)@, bytes@.take(0)));
        while i < bytes.len()
            invariant
                i <= bytes@.len(),
                self@ == line_after(old(self)@, bytes@.take(i as int)),
                lines@.map_values(|l: Vec<u8>| l@) == lines_in(
                    old(self)@,
                    bytes@.take(i as int),
                ),
            decreases bytes@.len() - i,
        {
            let ghost before = lines@;
            let done: Option<Vec<u8>> = self.push(bytes[i]);
            proof {
                assert(bytes@.take(i + 1).drop_last() =~= bytes@.take(i as int));
            }
            if let Some(line) = done {
                lines.push(line);
                assert(lines@.map_values(|l: Vec<u8>| l@) =~= before.map_values(
                    |l: Vec<u8>| l@,
                ).push(line@));
            }
            i = i + 1;
        }
        assert(bytes@.take(bytes@.len() as int) =~= bytes@);
        lines
    }
}

/// A line a client may send: not empty, not too long, and free of the bytes
/// that have a meaning of their own.
pub open spec fn sendable(line: Seq<u8>) -> bool {
    0 < line.len() <= LINE_MAX && forall|i: int|
        0 <= i < line.len() ==> #[trigger] line[i] != 10 && line[i] != 0
}

proof fn lemma_line_grows(line: Seq<u8>)
    requires
        line.len() <= LINE_MAX,
        forall|i: int| 0 <= i < line.len() ==> #[trigger] line[i] != 10 && line[i] != 0,
    ensures
        line_after(Seq::empty(), line) == line,
        lines_in(Seq::empty(), line) == Seq::<Seq<u8>>::empty(),
    decreases line.len(),
{
    if line.len() > 0 {
        lemma_line_grows(line.drop_last());
        assert(line.drop_last().push(line.last()) =~= line);
        assert(line[line.len() - 1] != 10);
    }
}

/// A line that is sent, followed by a newline, comes out as it was sent, and
/// the next one starts afresh.
pub proof fn law_sent_line_comes_out(line: Seq<u8>)
    requires
        sendable(line),
    ensures
        lines_in(Seq::empty(), line.push(10)) == seq![line],
        line_after(Seq::empty(), line.push(10)) == Seq::<u8>::empty(),
{
    lemma_line_grows(line);
    assert(line.push(10).drop_last() =~= line);
    assert(Seq::<Seq<u8>>::empty().push(line) =~= seq![line]);
}

/// How the stream is cut into reads does not matter: two reads leave the line,
/// and complete the lines, that one read of both would.
pub proof fn law_cuts_do_not_matter(line: Seq<u8>, first: Seq<u8>, second: Seq<u8>)
    ensures
        line_after(line, first + second) == line_after(line_after(line, first), second),
        lines_in(line, first + second) == lines_in(line, first) + lines_in(
            line_after(line, first),
            second,
        ),
    decreases second.len(),
{
    if second.len() == 0 {
        assert(first + second =~= first);
        assert(lines_in(line, first) + Seq::<Seq<u8>>::empty() =~= lines_in(line, first));
    } else {
        let rest = second.drop_last();
        law_cuts_do_not_matter(line, first, rest);
        assert((first + second).drop_last() =~= first + rest);
        let before = line_after(line, first + rest);
        if completes(before, second.last()) {
            assert((lines_in(line, first) + lines_in(line_after(line, first), rest)).push(before)
                =~= lines_in(line, first) + lines_in(line_after(line, first), rest).push(before));
        }
    }
}

/// A line never outgrows its limit.
pub proof fn law_line_stays_short(line: Seq<u8>, bytes: Seq<u8>)
    requires
        line.len() <= LINE_MAX,
    ensures
        line_after(line, bytes).len() <= LINE_MAX,
    decreases bytes.len(),
{
    if bytes.len() > 0 {
        law_line_stays_short(line, bytes.drop_last());
    }
}

} // verus!
