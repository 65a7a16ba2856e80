//! The executor state machine: the decision core of one spawned process's
//! output drain loop.
//!
//! The loop around it (awaiting the next output line under the inactivity
//! timeout, sending flushed chunks, reaping the child) performs outside
//! work; every decision — batch or stream, flush or hold, what the final
//! result is — is made here and verified. In streaming mode every line goes
//! through the debounced batcher and the concatenation of all flushed chunks
//! is exactly the lines seen, in order. In batch mode the lines are
//! accumulated and joined with newlines.

use vstd::prelude::*;

use crate::batcher::Batcher;
use crate::batcher::FLUSH_INTERVAL;
use crate::batcher::MAX_PENDING_LINES;
use crate::batcher::flushed_of;

verus! {

/// The inactivity bound: how many time units the drain loop waits for more
/// output before it treats the stream as finished.
pub const INACTIVITY_TIMEOUT: u64 = 120;

/// The lines joined with a newline between each pair.
pub open spec fn join_lines(ls: Seq<Seq<char>>) -> Seq<char>
    decreases ls.len(),
{
    if ls.len() == 0 {
        Seq::<char>::empty()
    } else if ls.len() == 1 {
        ls[0]
    } else {
        ls[0] + seq!['\n'] + join_lines(ls.drop_first())
    }
}

/// Joining one more line appends a newline and the line.
pub proof fn lemma_join_lines_snoc(ls: Seq<Seq<char>>, x: Seq<char>)
    ensures
        ls.len() == 0 ==> join_lines(ls + seq![x]) == x,
        ls.len() > 0 ==> join_lines(ls + seq![x]) == join_lines(ls) + seq!['\n'] + x,
    decreases ls.len(),
{
    let w = ls + seq![x];
    if ls.len() == 0 {
        assert(w.len() == 1);
        assert(w[0] == x);
    } else {
        lemma_join_lines_snoc(ls.drop_first(), x);
        assert(w.drop_first() =~= ls.drop_first() + seq![x]);
        if ls.len() == 1 {
            assert(join_lines(w) == w[0] + seq!['\n'] + join_lines(w.drop_first()));
            assert(join_lines(ls) == ls[0]);
            assert(w[0] == ls[0]);
        } else {
            assert(join_lines(w) == w[0] + seq!['\n'] + join_lines(w.drop_first()));
            assert(join_lines(w.drop_first()) == join_lines(ls.drop_first()) + seq!['\n'] + x);
            assert(w[0] + seq!['\n'] + (join_lines(ls.drop_first()) + seq!['\n'] + x) =~= (ls[0]
                + seq!['\n'] + join_lines(ls.drop_first())) + seq!['\n'] + x);
        }
    }
}

/// The lines joined with newlines, as text.
pub fn join_with_newlines(lines: &Vec<String>) -> (r: String)
    ensures
        r@ == join_lines(lines.deep_view()),
{
    let mut out = String::new();
    let mut i: usize = 0;
    while i < lines.len()
        invariant
            i <= lines@.len(),
            lines.deep_view().len() == lines@.len(),
            out@ == join_lines(lines.deep_view().subrange(0, i as int)),
        decreases lines@.len() - i,
    {
        if i > 0 {
            out.push('\n');
        }
        out.append(lines[i].as_str());
        proof {
            let ghost prefix = lines.deep_view().subrange(0, i as int);
            let ghost line = lines.deep_view()[i as int];
            assert(lines.deep_view().subrange(0, i + 1 as int) =~= prefix + seq![line]);
            lemma_join_lines_snoc(prefix, line);
            assert(lines[i as int]@ == line);
            if i > 0 {
                assert(out@ =~= join_lines(prefix) + seq!['\n'] + line);
            } else {
                assert(prefix.len() == 0);
                assert(out@ =~= line);
            }
        }
        i = i + 1;
    }
    proof {
        assert(lines.deep_view().subrange(0, lines@.len() as int) =~= lines.deep_view());
    }
    out
}

/// One execution's drain state.
pub struct Executor {
    streaming: bool,
    batcher: Batcher,
    lines: Vec<String>,
    seen: Ghost<Seq<Seq<char>>>,
    emitted: Ghost<Seq<Seq<char>>>,
}

impl Executor {
    /// Whether this execution streams chunks or collects everything.
    pub closed spec fn is_streaming(&self) -> bool {
        self.streaming
    }

    /// Every output line seen so far, in order.
    pub closed spec fn seen(&self) -> Seq<Seq<char>> {
        self.seen@
    }

    /// Every line already flushed out in a chunk, in order.
    pub closed spec fn emitted(&self) -> Seq<Seq<char>> {
        self.emitted@
    }

    /// The lines accepted in streaming mode and not yet flushed.
    pub closed spec fn pending(&self) -> Seq<Seq<char>> {
        if self.streaming {
            self.batcher.pending_lines()
        } else {
            Seq::<Seq<char>>::empty()
        }
    }

    /// The time bound the next push must respect.
    pub closed spec fn clock(&self) -> u64 {
        self.batcher.last_flush_time()
    }

    /// Internal consistency: nothing seen is ever lost — it is either
    /// already emitted, still pending in the batcher, or (in batch mode)
    /// collected.
    pub closed spec fn wf(&self) -> bool {
        &&& self.batcher.wf()
        &&& if self.streaming {
            self.emitted@ + self.batcher.pending_lines() == self.seen@ && self.lines@.len() == 0
        } else {
            self.lines.deep_view() == self.seen@ && self.emitted@.len() == 0
        }
    }

    /// A fresh executor, started at time `start`.
    pub fn new(streaming: bool, start: u64) -> (r: Executor)
        ensures
            r.wf(),
            r.is_streaming() == streaming,
            r.seen() == Seq::<Seq<char>>::empty(),
            r.emitted() == Seq::<Seq<char>>::empty(),
            r.pending() == Seq::<Seq<char>>::empty(),
            r.clock() == start,
    {
        let r = Executor {
            streaming,
            batcher: Batcher::new(start),
            lines: Vec::new(),
            seen: Ghost(Seq::empty()),
            emitted: Ghost(Seq::empty()),
        };
        proof {
            assert(r.lines.deep_view() =~= Seq::<Seq<char>>::empty());
            assert(r.emitted@ + r.batcher.pending_lines() =~= Seq::<Seq<char>>::empty());
        }
        r
    }

    /// Takes the next output line, read at time `now`. In streaming mode the
    /// line goes through the batcher and a chunk may come back to be sent;
    /// in batch mode the line is collected and nothing comes back.
    pub fn on_line(&mut self, line: String, now: u64) -> (chunk: Option<Vec<String>>)
        requires
            old(self).wf(),
            old(self).clock() <= now,
        ensures
            final(self).wf(),
            final(self).is_streaming() == old(self).is_streaming(),
            final(self).clock() <= now,
            final(self).seen() == old(self).seen() + seq![line@],
            old(self).is_streaming()
                ==> final(self).emitted() == old(self).emitted() + flushed_of(chunk),
            old(self).is_streaming()
                ==> final(self).emitted() + final(self).pending() == final(self).seen(),
            !old(self).is_streaming()
                ==> chunk is None && final(self).emitted() == old(self).emitted(),
            chunk is Some ==> old(self).is_streaming() && flushed_of(chunk).len() >= 1,
            flushed_of(chunk).len() <= MAX_PENDING_LINES,
            final(self).pending().len() <= MAX_PENDING_LINES,
            old(self).is_streaming() && old(self).pending().len() >= MAX_PENDING_LINES
                ==> chunk is Some
                    && flushed_of(chunk) == old(self).pending()
                    && final(self).pending() == seq![line@]
                    && final(self).clock() == now,
            old(self).is_streaming() && old(self).pending().len() < MAX_PENDING_LINES
                && now - old(self).clock() >= FLUSH_INTERVAL
                ==> chunk is Some
                    && flushed_of(chunk) == old(self).pending() + seq![line@]
                    && final(self).pending() == Seq::<Seq<char>>::empty()
                    && final(self).clock() == now,
            old(self).is_streaming() && old(self).pending().len() < MAX_PENDING_LINES
                && now - old(self).clock() < FLUSH_INTERVAL
                ==> chunk is None
                    && final(self).pending() == old(self).pending() + seq![line@]
                    && final(self).clock() == old(self).clock(),
    {
        proof {
            self.seen@ = self.seen@ + seq![line@];
        }
        if self.streaming {
            let ghost line_v = line@;
            let chunk = self.batcher.push(line, now);
            proof {
                self.emitted@ = self.emitted@ + flushed_of(chunk);
                assert(self.emitted@ + self.batcher.pending_lines() =~= self.seen@);
            }
            chunk
        } else {
            self.lines.push(line);
            proof {
                assert(self.lines.deep_view() =~= self.seen@);
            }
            None
        }
    }

    /// The end of the stream (normal exit, the inactivity timeout, or
    /// cancellation): in streaming mode a trailing chunk carries whatever
    /// was still pending, so that everything seen has then been emitted; in
    /// batch mode the collected lines come back newline-joined.
    pub fn finish(self) -> (r: (Option<Vec<String>>, Option<String>))
        requires
            self.wf(),
        ensures
            self.is_streaming() ==> r.1 is None && flushed_of(r.0) == self.pending()
                && self.emitted() + flushed_of(r.0) == self.seen(),
            flushed_of(r.0).len() <= MAX_PENDING_LINES,
            !self.is_streaming() ==> r.0 is None && r.1 is Some && r.1.unwrap()@ == join_lines(
                self.seen(),
            ),
    {
        if self.streaming {
            let chunk = self.batcher.finish();
            (chunk, None)
        } else {
            let text = join_with_newlines(&self.lines);
            (None, Some(text))
        }
    }
}

} // verus!
