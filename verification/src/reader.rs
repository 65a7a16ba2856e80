//! The line reader's splitting core: turns a child process's byte stream,
//! fed in arbitrary chunks, into complete lines at newline boundaries, with
//! the newline and one trailing carriage return stripped. Decoding the bytes
//! of each line into text is the caller's step (best-effort, so malformed
//! bytes never abort the stream).

use vstd::prelude::*;

use crate::outside::lossy_decode;
use crate::outside::lossy_text;

verus! {

/// The newline byte.
pub const NEWLINE: u8 = 10;

/// The carriage-return byte.
pub const CARRIAGE_RETURN: u8 = 13;

/// No newline byte anywhere in `s`.
pub open spec fn line_free(s: Seq<u8>) -> bool {
    forall|k: int| 0 <= k < s.len() ==> s[k] != NEWLINE
}

/// One trailing carriage return stripped, so CRLF output reads like LF
/// output.
pub open spec fn strip_cr(s: Seq<u8>) -> Seq<u8> {
    if s.len() > 0 && s[s.len() - 1] == CARRIAGE_RETURN {
        s.drop_last()
    } else {
        s
    }
}

/// What a byte stream splits into: the complete lines (text before each
/// newline, one trailing carriage return stripped) and the raw bytes after
/// the last newline.
pub open spec fn split_stream(b: Seq<u8>) -> (Seq<Seq<u8>>, Seq<u8>)
    decreases b.len(),
{
    if b.len() == 0 {
        (Seq::<Seq<u8>>::empty(), Seq::<u8>::empty())
    } else {
        let prev = split_stream(b.drop_last());
        if b.last() == NEWLINE {
            (prev.0 + seq![strip_cr(prev.1)], Seq::<u8>::empty())
        } else {
            (prev.0, prev.1 + seq![b.last()])
        }
    }
}

/// The splitter's state: the bytes after the last newline seen so far.
pub struct LineSplitter {
    buf: Vec<u8>,
    fed: Ghost<Seq<u8>>,
}

impl LineSplitter {
    /// Every byte this splitter was ever fed.
    pub closed spec fn fed(&self) -> Seq<u8> {
        self.fed@
    }

    /// The partial line not yet ended by a newline, as fed (a carriage
    /// return, if any, is stripped only once the line completes).
    pub closed spec fn residual(&self) -> Seq<u8> {
        self.buf@
    }

    /// The residual never holds a newline and is exactly what follows the
    /// last newline of everything fed.
    pub closed spec fn wf(&self) -> bool {
        line_free(self.buf@) && self.buf@ == split_stream(self.fed@).1
    }

    /// A fresh splitter with nothing buffered.
    pub fn new() -> (r: LineSplitter)
        ensures
            r.wf(),
            r.fed() == Seq::<u8>::empty(),
            r.residual() == Seq::<u8>::empty(),
    {
        let r = LineSplitter { buf: Vec::new(), fed: Ghost(Seq::empty()) };
        proof {
            assert(r.residual() =~= Seq::<u8>::empty());
            assert(split_stream(r.fed@).1 =~= Seq::<u8>::empty());
        }
        r
    }

    /// Feeds one chunk of the byte stream and hands back every line it
    /// completes: exactly the lines that the whole stream fed so far splits
    /// into beyond those already handed out, in order, each newline-free.
    pub fn push_bytes(&mut self, chunk: &Vec<u8>) -> (lines: Vec<Vec<u8>>)
        requires
            old(self).wf(),
        ensures
            final(self).wf(),
            final(self).fed() == old(self).fed() + chunk@,
            split_stream(final(self).fed()).0 == split_stream(old(self).fed()).0
                + lines.deep_view(),
            final(self).residual() == split_stream(final(self).fed()).1,
            forall|k: int|
                0 <= k < lines.deep_view().len() ==> line_free(#[trigger] lines.deep_view()[k]),
    {
        let mut lines: Vec<Vec<u8>> = Vec::new();
        let mut i: usize = 0;
        proof {
            assert(self.fed@ + chunk@.subrange(0, 0) =~= old(self).fed());
            assert(split_stream(old(self).fed()).0 + lines.deep_view() =~= split_stream(
                old(self).fed(),
            ).0);
        }
        while i < chunk.len()
            invariant
                i <= chunk@.len(),
                line_free(self.buf@),
                self.fed@ == old(self).fed() + chunk@.subrange(0, i as int),
                self.buf@ == split_stream(self.fed@).1,
                split_stream(self.fed@).0 == split_stream(old(self).fed()).0 + lines.deep_view(),
                forall|k: int|
                    0 <= k < lines.deep_view().len() ==> line_free(
                        #[trigger] lines.deep_view()[k],
                    ),
            decreases chunk@.len() - i,
        {
            let b = chunk[i];
            let ghost prev_fed = self.fed@;
            let ghost prev_lines = lines.deep_view();
            let ghost prev_buf = self.buf@;
            proof {
                self.fed@ = self.fed@ + seq![b];
                assert(self.fed@.drop_last() =~= prev_fed);
                assert(self.fed@.last() == b);
                assert(chunk@.subrange(0, i + 1 as int) =~= chunk@.subrange(0, i as int)
                    + seq![b]);
                assert(self.fed@ =~= old(self).fed() + chunk@.subrange(0, i + 1 as int));
            }
            if b == NEWLINE {
                let mut full: Vec<u8> = Vec::new();
                core::mem::swap(&mut self.buf, &mut full);
                if full.len() > 0 && full[full.len() - 1] == CARRIAGE_RETURN {
                    full.pop();
                }
                proof {
                    assert(full@ =~= strip_cr(prev_buf));
                }
                lines.push(full);
                proof {
                    assert(lines.deep_view() =~~= prev_lines + seq![strip_cr(prev_buf)]);
                    assert(self.buf@ =~= Seq::<u8>::empty());
                    assert(split_stream(self.fed@).0 =~= (split_stream(old(self).fed()).0
                        + prev_lines) + seq![strip_cr(prev_buf)]);
                    assert(split_stream(self.fed@).0 =~= split_stream(old(self).fed()).0
                        + lines.deep_view());
                }
            } else {
                self.buf.push(b);
                proof {
                    assert(self.buf@ =~= prev_buf + seq![b]);
                    assert(split_stream(self.fed@).1 =~= prev_buf + seq![b]);
                }
            }
            i = i + 1;
        }
        proof {
            assert(chunk@.subrange(0, chunk@.len() as int) =~= chunk@);
            assert(self.fed@ =~= old(self).fed() + chunk@);
        }
        lines
    }

    /// The end of the stream: an unterminated trailing line still counts,
    /// with a trailing carriage return stripped as from any other line.
    pub fn finish(self) -> (r: Option<Vec<u8>>)
        ensures
            self.residual().len() == 0 <==> r is None,
            r matches Some(b) ==> b@ == strip_cr(self.residual()),
    {
        if self.buf.len() > 0 {
            let ghost orig = self.buf@;
            let mut b = self.buf;
            if b[b.len() - 1] == CARRIAGE_RETURN {
                b.pop();
            }
            proof {
                assert(b@ =~= strip_cr(orig));
            }
            Some(b)
        } else {
            None
        }
    }
}

/// Decodes split lines into text, best effort: malformed bytes become
/// the replacement character and never abort the stream.
pub fn decode_lines(lines: &Vec<Vec<u8>>) -> (r: Vec<String>)
    ensures
        r@.len() == lines@.len(),
        forall|k: int| 0 <= k < lines@.len() ==> #[trigger] r@[k]@ == lossy_text(lines@[k]@),
{
    let mut r: Vec<String> = Vec::new();
    let mut i: usize = 0;
    while i < lines.len()
        invariant
            i <= lines@.len(),
            r@.len() == i,
            forall|k: int| 0 <= k < i ==> #[trigger] r@[k]@ == lossy_text(lines@[k]@),
        decreases lines@.len() - i,
    {
        r.push(lossy_decode(&lines[i]));
        i = i + 1;
    }
    r
}

} // verus!
