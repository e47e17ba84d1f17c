//! The bounded channel between the source tasks and the consumer, as the
//! producer protocol sees it.
//!
//! Every write is try-then-retry: a full channel hands the payload back
//! unchanged and the producer yields and retries the same payload, so no
//! event is ever dropped on backpressure. The model here carries the whole
//! argument: an interleaving of producer and consumer steps conserves the
//! messages — what was received, what sits in the channel and what is still
//! pending always make up exactly the original sequence, in order.

use vstd::prelude::*;

verus! {

/// A bounded in-order channel.
pub struct ModelChannel<T> {
    /// Fixed capacity the channel was created with.
    pub cap: usize,
    /// Messages accepted and not yet taken out, oldest first.
    pub buf: Vec<T>,
}

impl<T> ModelChannel<T> {
    /// The buffer never exceeds the capacity.
    pub open spec fn wf(self) -> bool {
        self.buf@.len() <= self.cap
    }

    /// An empty channel of the given capacity.
    pub fn new(cap: usize) -> (r: Self)
        ensures
            r.cap == cap,
            r.buf@.len() == 0,
            r.wf(),
    {
        Self { cap, buf: Vec::new() }
    }

    /// Offer one message: accepted exactly when the channel has room,
    /// handed back unchanged when it is full. Nothing is ever dropped.
    pub fn try_send(&mut self, m: T) -> (r: Result<(), T>)
        requires
            old(self).wf(),
        ensures
            final(self).cap == old(self).cap,
            final(self).wf(),
            old(self).buf@.len() < old(self).cap ==> r is Ok && final(self).buf@ == old(
                self,
            ).buf@.push(m),
            old(self).buf@.len() >= old(self).cap ==> r is Err && r->Err_0 == m && final(self).buf@
                == old(self).buf@,
    {
        if self.buf.len() < self.cap {
            self.buf.push(m);
            Ok(())
        } else {
            Err(m)
        }
    }

    /// Take the oldest message out, if any.
    pub fn pop_front(&mut self) -> (r: Option<T>)
        requires
            old(self).wf(),
        ensures
            final(self).cap == old(self).cap,
            final(self).wf(),
            old(self).buf@.len() == 0 ==> r is None && final(self).buf@ == old(self).buf@,
            old(self).buf@.len() > 0 ==> r == Some(old(self).buf@[0]) && final(self).buf@ == old(
                self,
            ).buf@.drop_first(),
    {
        if self.buf.len() == 0 {
            None
        } else {
            let m = self.buf.remove(0);
            proof {
                assert(old(self).buf@.remove(0) =~= old(self).buf@.drop_first());
            }
            Some(m)
        }
    }
}

/// One state of the producer/consumer interleaving: what is still to be
/// sent, what sits in the channel, and what the consumer has observed.
#[verifier::ext_equal]
pub struct ChannelRun<T> {
    pub pending: Seq<T>,
    pub buf: Seq<T>,
    pub received: Seq<T>,
}

/// One scheduling step. A producer step offers the next pending message
/// and, when the channel is full, retries later — the message stays
/// pending. A consumer step takes the oldest message out, if any.
pub open spec fn channel_step<T>(st: ChannelRun<T>, produce: bool, cap: int) -> ChannelRun<T> {
    if produce {
        if st.pending.len() > 0 && st.buf.len() < cap {
            ChannelRun {
                pending: st.pending.drop_first(),
                buf: st.buf.push(st.pending[0]),
                received: st.received,
            }
        } else {
            st
        }
    } else {
        if st.buf.len() > 0 {
            ChannelRun {
                pending: st.pending,
                buf: st.buf.drop_first(),
                received: st.received.push(st.buf[0]),
            }
        } else {
            st
        }
    }
}

/// The state after a whole schedule of steps.
pub open spec fn channel_run<T>(st: ChannelRun<T>, schedule: Seq<bool>, cap: int) -> ChannelRun<T>
    decreases schedule.len(),
{
    if schedule.len() == 0 {
        st
    } else {
        channel_run(channel_step(st, schedule[0], cap), schedule.drop_first(), cap)
    }
}

/// Channel safety: under any interleaving of producers and consumers, with
/// any amount of backpressure, no message is lost or reordered — what was
/// received, what is buffered and what is still pending always make up
/// exactly the original messages — and the buffer never exceeds the
/// capacity. In particular a run that drains everything has delivered every
/// message, in order.
pub proof fn lemma_channel_conservation<T>(msgs: Seq<T>, schedule: Seq<bool>, cap: int)
    requires
        cap >= 0,
    ensures
        ({
            let end = channel_run(
                ChannelRun { pending: msgs, buf: Seq::empty(), received: Seq::empty() },
                schedule,
                cap,
            );
            &&& end.received + end.buf + end.pending == msgs
            &&& end.buf.len() <= cap
        }),
    decreases schedule.len(),
{
    let st0 = ChannelRun { pending: msgs, buf: Seq::<T>::empty(), received: Seq::<T>::empty() };
    assert(st0.received + st0.buf + st0.pending =~= msgs);
    lemma_channel_run_conserves(st0, schedule, cap);
}

/// The conservation invariant holds step by step from any state.
pub proof fn lemma_channel_run_conserves<T>(st: ChannelRun<T>, schedule: Seq<bool>, cap: int)
    requires
        cap >= 0,
        st.buf.len() <= cap,
    ensures
        ({
            let end = channel_run(st, schedule, cap);
            &&& end.received + end.buf + end.pending == st.received + st.buf + st.pending
            &&& end.buf.len() <= cap
        }),
    decreases schedule.len(),
{
    if schedule.len() > 0 {
        let st1 = channel_step(st, schedule[0], cap);
        assert(st1.received + st1.buf + st1.pending =~= st.received + st.buf + st.pending);
        lemma_channel_run_conserves(st1, schedule.drop_first(), cap);
    }
}

} // verus!
