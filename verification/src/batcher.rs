//! The debounced batcher: accumulates streamed output lines and decides when
//! to flush them as one chunk, trading latency against message rate.
//!
//! The flush rule: a pending batch never exceeds [`MAX_PENDING_LINES`] lines
//! — a line that would make it longer flushes the batch first — and a push
//! at or past [`FLUSH_INTERVAL`] time units since the last flush flushes at
//! once. A trailing partial batch is always flushed when the stream ends.

use vstd::prelude::*;

verus! {

/// The most lines a pending batch (or one flushed chunk) may hold.
pub const MAX_PENDING_LINES: usize = 20;

/// The most time units a pending batch may wait once another push arrives.
pub const FLUSH_INTERVAL: u64 = 500;

/// The lines a flush decision handed out, as plain sequences.
pub open spec fn flushed_of(chunk: Option<Vec<String>>) -> Seq<Seq<char>> {
    match chunk {
        None => Seq::<Seq<char>>::empty(),
        Some(c) => c.deep_view(),
    }
}

pub struct Batcher {
    pending: Vec<String>,
    last_flush: u64,
}

impl Batcher {
    /// The lines accumulated and not yet flushed.
    pub closed spec fn pending_lines(&self) -> Seq<Seq<char>> {
        self.pending.deep_view()
    }

    /// When the batcher last flushed (or was created).
    pub closed spec fn last_flush_time(&self) -> u64 {
        self.last_flush
    }

    /// The batch bound always holds.
    pub closed spec fn wf(&self) -> bool {
        self.pending.len() <= MAX_PENDING_LINES
    }

    /// A fresh batcher with nothing pending.
    pub fn new(now: u64) -> (r: Batcher)
        ensures
            r.wf(),
            r.pending_lines() == Seq::<Seq<char>>::empty(),
            r.last_flush_time() == now,
    {
        let r = Batcher { pending: Vec::new(), last_flush: now };
        proof {
            assert(r.pending_lines() =~= Seq::<Seq<char>>::empty());
        }
        r
    }

    /// Accepts one line at time `now` and flushes if the batch bound or the
    /// deadline says so. No line is lost or duplicated: what was pending
    /// plus the new line is exactly what is flushed plus what stays pending.
    pub fn push(&mut self, line: String, now: u64) -> (chunk: Option<Vec<String>>)
        requires
            old(self).wf(),
            old(self).last_flush_time() <= now,
        ensures
            final(self).wf(),
            final(self).last_flush_time() <= now,
            flushed_of(chunk) + final(self).pending_lines()
                == old(self).pending_lines() + seq![line@],
            chunk is Some
                ==> flushed_of(chunk).len() >= 1 && flushed_of(chunk).len() <= MAX_PENDING_LINES,
            old(self).pending_lines().len() >= MAX_PENDING_LINES
                ==> chunk is Some
                    && flushed_of(chunk) == old(self).pending_lines()
                    && final(self).pending_lines() == seq![line@]
                    && final(self).last_flush_time() == now,
            old(self).pending_lines().len() < MAX_PENDING_LINES
                && now - old(self).last_flush_time() >= FLUSH_INTERVAL
                ==> chunk is Some
                    && flushed_of(chunk) == old(self).pending_lines() + seq![line@]
                    && final(self).pending_lines() == Seq::<Seq<char>>::empty()
                    && final(self).last_flush_time() == now,
            old(self).pending_lines().len() < MAX_PENDING_LINES
                && now - old(self).last_flush_time() < FLUSH_INTERVAL
                ==> chunk is None
                    && final(self).pending_lines() == old(self).pending_lines() + seq![line@]
                    && final(self).last_flush_time() == old(self).last_flush_time(),
    {
        if self.pending.len() >= MAX_PENDING_LINES {
            let mut full: Vec<String> = Vec::new();
            core::mem::swap(&mut self.pending, &mut full);
            self.pending.push(line);
            self.last_flush = now;
            proof {
                assert(self.pending_lines() =~= seq![line@]);
                assert(flushed_of(Some(full)) + self.pending_lines() =~= old(
                    self,
                ).pending_lines() + seq![line@]);
            }
            Some(full)
        } else {
            self.pending.push(line);
            if now - self.last_flush >= FLUSH_INTERVAL {
                let mut full: Vec<String> = Vec::new();
                core::mem::swap(&mut self.pending, &mut full);
                self.last_flush = now;
                proof {
                    assert(full.deep_view() =~= old(self).pending_lines() + seq![line@]);
                    assert(self.pending_lines() =~= Seq::<Seq<char>>::empty());
                    assert(flushed_of(Some(full)) + self.pending_lines() =~= old(
                        self,
                    ).pending_lines() + seq![line@]);
                }
                Some(full)
            } else {
                proof {
                    assert(self.pending_lines() =~= old(self).pending_lines() + seq![line@]);
                    assert(flushed_of(None) + self.pending_lines() =~= old(self).pending_lines()
                        + seq![line@]);
                }
                None
            }
        }
    }

    /// The trailing flush once no more lines will arrive: whatever is still
    /// pending goes out, or nothing if nothing is pending.
    pub fn finish(self) -> (chunk: Option<Vec<String>>)
        requires
            self.wf(),
        ensures
            flushed_of(chunk) == self.pending_lines(),
            chunk is Some <==> self.pending_lines().len() > 0,
            flushed_of(chunk).len() <= MAX_PENDING_LINES,
    {
        if self.pending.len() > 0 {
            Some(self.pending)
        } else {
            proof {
                assert(flushed_of(None) =~= self.pending_lines());
            }
            None
        }
    }
}

} // verus!
