//! The machine's view of its surroundings: a source of input lines and a
//! sink for output text.
//!
//! The machine itself performs no input or output; it is generic over
//! these two traits. Each implementor models its stream in ghost state:
//! a reader as the lines it has left, a writer as the text written so
//! far. The in-memory implementors here are verified against that model
//! and serve programs run against prepared input; an embedder supplies
//! its own implementors for real streams, which the machine trusts to
//! meet the same contracts, as any stream given to it must.

use vstd::prelude::*;

verus! {

/// A source of input lines.
pub trait LineReader {
    /// The input lines not yet consumed, as this reader models them. An
    /// implementor that does not model its stream — a console, say —
    /// leaves the default, an exhausted stream.
    open spec fn lines_left(&self) -> Seq<Seq<char>> {
        Seq::empty()
    }

    /// Reads one input line, without its line ending. `None` reports
    /// that no line can be had: the stream is exhausted or failed. A
    /// line that is read is the first one left, and is consumed.
    fn read_line(&mut self) -> (r: Option<String>)
        ensures
            match r {
                Some(l) => old(self).lines_left().len() > 0 && l@ == old(self).lines_left()[0]
                    && final(self).lines_left() == old(self).lines_left().drop_first(),
                None => final(self).lines_left() == old(self).lines_left(),
            },
    ;
}

/// A sink for output text.
pub trait TextWriter {
    /// Everything written so far, as this writer models it. An
    /// implementor that does not model its stream leaves the default,
    /// an empty record.
    open spec fn written(&self) -> Seq<char> {
        Seq::empty()
    }

    /// Writes `text`, reporting whether the write succeeded. A failed
    /// write leaves the model unchanged.
    fn write_text(&mut self, text: &str) -> (r: bool)
        ensures
            r ==> final(self).written() == old(self).written() + text@,
            !r ==> final(self).written() == old(self).written(),
    ;
}

/// A reader over a prepared list of lines. Reading yields the lines in
/// order and then reports exhaustion.
pub struct VecReader {
    lines: Vec<String>,
    pos: usize,
}

impl VecReader {
    /// A reader that will yield the given lines in order.
    pub fn new(lines: Vec<String>) -> (r: Self)
        ensures
            r.lines_left() == lines.deep_view(),
    {
        let r = VecReader { lines, pos: 0 };
        proof {
            assert(r.lines_left() =~= r.lines.deep_view());
        }
        r
    }
}

impl LineReader for VecReader {
    closed spec fn lines_left(&self) -> Seq<Seq<char>> {
        if self.pos <= self.lines@.len() {
            self.lines.deep_view().skip(self.pos as int)
        } else {
            Seq::empty()
        }
    }

    fn read_line(&mut self) -> (r: Option<String>) {
        if self.pos < self.lines.len() {
            let l = self.lines[self.pos].clone();
            self.pos = self.pos + 1;
            proof {
                assert(old(self).lines_left()[0] == self.lines.deep_view()[old(self).pos as int]);
                assert(l@ == self.lines@[old(self).pos as int]@);
                assert(self.lines_left() =~= old(self).lines_left().drop_first());
            }
            Some(l)
        } else {
            None
        }
    }
}

/// A writer that accumulates everything written into a string. Writing
/// never fails.
pub struct StringWriter {
    out: String,
}

impl StringWriter {
    /// A writer that has written nothing yet.
    pub fn new() -> (r: Self)
        ensures
            r.written() == Seq::<char>::empty(),
    {
        StringWriter { out: String::new() }
    }

    /// Everything written so far.
    pub fn contents(&self) -> (r: &str)
        ensures
            r@ == self.written(),
    {
        self.out.as_str()
    }

    /// Everything written so far, surrendering the writer.
    pub fn into_string(self) -> (r: String)
        ensures
            r@ == self.written(),
    {
        self.out
    }
}

impl TextWriter for StringWriter {
    closed spec fn written(&self) -> Seq<char> {
        self.out@
    }

    fn write_text(&mut self, text: &str) -> (r: bool) {
        self.out.append(text);
        true
    }
}

} // verus!
