//! The cancellation registry: process-wide bookkeeping of every session's
//! cancellation state, exposed to an out-of-band control action that stops
//! all of them at once.
//!
//! Cancellation is cooperative: a session polls [`Registry::is_stopped`] at
//! its cancellation points (the per-line timeout check and the read-loop
//! boundary) and stops forwarding once its slot is no longer active. A slot
//! is never reused, so a finished session's identifier stays stopped.

use vstd::prelude::*;
use vstd::pervasive::VecAdditionalExecFns;

verus! {

/// The state of one session's slot.
#[derive(Clone, Copy, Debug, PartialEq, Eq, Structural)]
pub enum SessionState {
    /// The session runs and may forward output.
    Active,
    /// The control surface asked the session to stop.
    Aborted,
    /// The session ended and removed itself.
    Done,
}

/// Whether the session with slot `id` must stop forwarding: an unknown,
/// aborted or finished slot all say stop.
pub open spec fn session_stopped(slots: Seq<SessionState>, id: int) -> bool {
    !(0 <= id < slots.len() && slots[id] == SessionState::Active)
}

pub struct Registry {
    slots: Vec<SessionState>,
}

impl Registry {
    /// Every session's slot, in registration order.
    pub closed spec fn slots(&self) -> Seq<SessionState> {
        self.slots@
    }

    /// An empty registry.
    pub fn new() -> (r: Registry)
        ensures
            r.slots() == Seq::<SessionState>::empty(),
    {
        let r = Registry { slots: Vec::new() };
        proof {
            assert(r.slots() =~= Seq::<SessionState>::empty());
        }
        r
    }

    /// Registers a new session and hands back its slot identifier; the new
    /// session is active and every other slot is untouched.
    pub fn register(&mut self) -> (id: usize)
        ensures
            id == old(self).slots().len(),
            final(self).slots() == old(self).slots() + seq![SessionState::Active],
            !session_stopped(final(self).slots(), id as int),
    {
        let id = self.slots.len();
        self.slots.push(SessionState::Active);
        id
    }

    /// Removes a session on its own completion. A slot that never existed is
    /// left alone, so this never fails.
    pub fn deregister(&mut self, id: usize)
        ensures
            id < old(self).slots().len() ==> final(self).slots() == old(self).slots().update(
                id as int,
                SessionState::Done,
            ),
            id >= old(self).slots().len() ==> final(self).slots() == old(self).slots(),
            session_stopped(final(self).slots(), id as int),
    {
        if id < self.slots.len() {
            self.slots.set(id, SessionState::Done);
        }
    }

    /// The control action: asks every active session to stop. Slots of
    /// sessions that already ended are left as they are, and nothing here
    /// can fail, however many sessions are active.
    pub fn abort_all(&mut self)
        ensures
            final(self).slots().len() == old(self).slots().len(),
            forall|k: int|
                0 <= k < old(self).slots().len() ==> #[trigger] final(self).slots()[k] == (if old(
                    self,
                ).slots()[k] == SessionState::Active {
                    SessionState::Aborted
                } else {
                    old(self).slots()[k]
                }),
    {
        let n = self.slots.len();
        let mut k: usize = 0;
        while k < n
            invariant
                n == self.slots@.len(),
                k <= n,
                self.slots@.len() == old(self).slots@.len(),
                forall|m: int|
                    0 <= m < k ==> #[trigger] self.slots@[m] == (if old(self).slots@[m]
                        == SessionState::Active {
                        SessionState::Aborted
                    } else {
                        old(self).slots@[m]
                    }),
                forall|m: int| k <= m < n ==> #[trigger] self.slots@[m] == old(self).slots@[m],
            decreases n - k,
        {
            if self.slots[k] == SessionState::Active {
                self.slots.set(k, SessionState::Aborted);
            }
            k = k + 1;
        }
    }

    /// The cancellation point: whether the session with slot `id` must stop
    /// forwarding output.
    pub fn is_stopped(&self, id: usize) -> (r: bool)
        ensures
            r == session_stopped(self.slots(), id as int),
    {
        id >= self.slots.len() || self.slots[id] != SessionState::Active
    }
}

/// The mass-cancellation law: after the control action, every session —
/// whatever its slot held, an active execution or none — is told to stop at
/// its next cancellation point, and the action itself cannot fail on any
/// slot.
pub proof fn lemma_abort_all_stops_every_session(
    before: Seq<SessionState>,
    after: Seq<SessionState>,
)
    requires
        after.len() == before.len(),
        forall|k: int|
            0 <= k < before.len() ==> #[trigger] after[k] == (if before[k] == SessionState::Active {
                SessionState::Aborted
            } else {
                before[k]
            }),
    ensures
        forall|id: int| session_stopped(after, id),
{
    assert forall|id: int| session_stopped(after, id) by {
        if 0 <= id < after.len() {
            assert(after[id] != SessionState::Active);
        }
    }
}

} // verus!
