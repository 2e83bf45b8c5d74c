use std::collections::VecDeque;
use vstd::prelude::*;

verus! {

/// Number of messages a bridge holds before further sends are refused.
pub const CHANNEL_CAPACITY: usize = 100;

/// Why a channel operation did not go through.
#[derive(Debug, Clone, Copy, PartialEq, Eq, Structural)]
pub enum ChannelError {
    /// Nothing was pending.
    ReceiveError,
    /// The queue was full.
    SendError,
}

impl ChannelError {
    /// Human-readable description of the error.
    pub fn description(&self) -> (r: &'static str)
        ensures
            *self == ChannelError::ReceiveError ==> r@ == "Error while receiving message"@,
            *self == ChannelError::SendError ==> r@ == "Error while sending message"@,
    {
        match self {
            ChannelError::ReceiveError => "Error while receiving message",
            ChannelError::SendError => "Error while sending message",
        }
    }
}

/// The effect of one send on the pending messages `q` of a channel holding at
/// most `cap` messages: the new pending messages and the result.
pub open spec fn send_step<T>(q: Seq<T>, cap: nat, m: T) -> (Seq<T>, Result<(), ChannelError>) {
    if q.len() < cap {
        (q.push(m), Ok(()))
    } else {
        (q, Err(ChannelError::SendError))
    }
}

/// The effect of one receive on the pending messages `q`: the oldest leaves.
pub open spec fn receive_step<T>(q: Seq<T>) -> (Seq<T>, Result<T, ChannelError>) {
    if q.len() == 0 {
        (q, Err(ChannelError::ReceiveError))
    } else {
        (q.drop_first(), Ok(q[0]))
    }
}

/// Pending messages and per-call results after sending `msgs` one by one.
pub open spec fn send_all<T>(q: Seq<T>, cap: nat, msgs: Seq<T>) -> (Seq<T>, Seq<Result<(), ChannelError>>)
    decreases msgs.len(),
{
    if msgs.len() == 0 {
        (q, Seq::empty())
    } else {
        let (q1, r) = send_step(q, cap, msgs[0]);
        let (qn, rs) = send_all(q1, cap, msgs.drop_first());
        (qn, seq![r] + rs)
    }
}

/// Pending messages and per-call results after `n` receives.
pub open spec fn receive_n<T>(q: Seq<T>, n: nat) -> (Seq<T>, Seq<Result<T, ChannelError>>)
    decreases n,
{
    if n == 0 {
        (q, Seq::empty())
    } else {
        let (q1, r) = receive_step(q);
        let (qn, rs) = receive_n(q1, (n - 1) as nat);
        (qn, seq![r] + rs)
    }
}

/// Sending to a channel with pending messages `q` keeps every accepted message:
/// the calls made while fewer than `cap` messages are pending succeed and are
/// appended in order, and every later call fails and leaves the queue alone.
pub proof fn lemma_send_respects_capacity<T>(q: Seq<T>, cap: nat, msgs: Seq<T>)
    requires
        q.len() <= cap,
    ensures
        send_all(q, cap, msgs).1.len() == msgs.len(),
        forall|i: int|
            0 <= i < msgs.len() ==> (#[trigger] send_all(q, cap, msgs).1[i] is Ok <==> q.len() + i
                < cap),
        forall|i: int|
            0 <= i < msgs.len() && !(q.len() + i < cap) ==> #[trigger] send_all(q, cap, msgs).1[i]
                == Err::<(), ChannelError>(ChannelError::SendError),
        send_all(q, cap, msgs).0 == q + msgs.take(
            if msgs.len() <= cap - q.len() {
                msgs.len() as int
            } else {
                cap - q.len()
            },
        ),
    decreases msgs.len(),
{
    if msgs.len() > 0 {
        let q1 = send_step(q, cap, msgs[0]).0;
        lemma_send_respects_capacity(q1, cap, msgs.drop_first());
        let rs = send_all(q, cap, msgs).1;
        let rest = send_all(q1, cap, msgs.drop_first()).1;
        assert forall|i: int| 0 <= i < msgs.len() implies (rs[i] is Ok <==> q.len() + i < cap) && (
        !(q.len() + i < cap) ==> rs[i] == Err::<(), ChannelError>(ChannelError::SendError)) by {
            if i > 0 {
                assert(rs[i] == rest[i - 1]);
            }
        }
        if q.len() < cap {
            assert(q1 == q.push(msgs[0]));
            let k: int = if msgs.len() <= cap - q.len() {
                msgs.len() as int
            } else {
                cap - q.len()
            };
            assert(q1 + msgs.drop_first().take(k - 1) =~= q + msgs.take(k));
        } else {
            assert(msgs.drop_first().take(0) =~= msgs.take(0));
        }
    } else {
        assert(q + msgs.take(0) =~= q);
    }
}

/// Receiving `n` times from pending messages `q` with at least `n` entries
/// hands out the first `n` of them, oldest first, one per call.
pub proof fn lemma_receive_in_order<T>(q: Seq<T>, n: nat)
    requires
        n <= q.len(),
    ensures
        receive_n(q, n).0 == q.skip(n as int),
        receive_n(q, n).1.len() == n,
        forall|i: int| 0 <= i < n ==> #[trigger] receive_n(q, n).1[i] == Ok::<T, ChannelError>(q[i]),
    decreases n,
{
    if n > 0 {
        let q1 = q.drop_first();
        lemma_receive_in_order(q1, (n - 1) as nat);
        let rs = receive_n(q, n).1;
        let rest = receive_n(q1, (n - 1) as nat).1;
        assert forall|i: int| 0 <= i < n implies rs[i] == Ok::<T, ChannelError>(q[i]) by {
            if i > 0 {
                assert(rs[i] == rest[i - 1]);
            }
        }
        assert(q1.skip(n - 1) =~= q.skip(n as int));
    } else {
        assert(q.skip(0) =~= q);
    }
}

/// First in, first out: messages sent to an empty channel, no more of them
/// than its capacity, are all accepted, and as many receives return them in
/// the order they were sent, one per call, leaving the channel empty.
pub proof fn lemma_fifo<T>(msgs: Seq<T>)
    requires
        msgs.len() <= CHANNEL_CAPACITY,
    ensures
        forall|i: int|
            0 <= i < msgs.len() ==> #[trigger] send_all(Seq::<T>::empty(), CHANNEL_CAPACITY as nat, msgs).1[i]
                is Ok,
        receive_n(send_all(Seq::<T>::empty(), CHANNEL_CAPACITY as nat, msgs).0, msgs.len()).0
            == Seq::<T>::empty(),
        forall|i: int|
            0 <= i < msgs.len() ==> #[trigger] receive_n(
                send_all(Seq::<T>::empty(), CHANNEL_CAPACITY as nat, msgs).0,
                msgs.len(),
            ).1[i] == Ok::<T, ChannelError>(msgs[i]),
{
    let cap = CHANNEL_CAPACITY as nat;
    let e = Seq::<T>::empty();
    lemma_send_respects_capacity(e, cap, msgs);
    let q = send_all(e, cap, msgs).0;
    assert(q =~= msgs);
    lemma_receive_in_order(q, msgs.len());
    assert(q.skip(msgs.len() as int) =~= e);
}

/// A non-blocking, bounded, first-in first-out message channel.
pub trait Channel {
    type MessageType;

    /// The messages sent and not yet received, oldest first.
    spec fn pending(&self) -> Seq<Self::MessageType>;

    /// How many messages may be pending at once.
    spec fn capacity(&self) -> nat;

    /// Enqueues `message`, or fails without waiting when the queue is full.
    fn send(&mut self, message: Self::MessageType) -> (r: Result<(), ChannelError>)
        ensures
            (final(self).pending(), r) == send_step(old(self).pending(), old(self).capacity(), message),
            final(self).capacity() == old(self).capacity(),
    ;

    /// Dequeues the oldest pending message, or reports that none is pending.
    fn receive(&mut self) -> (r: Result<Self::MessageType, ChannelError>)
        ensures
            (final(self).pending(), r) == receive_step(old(self).pending()),
            final(self).capacity() == old(self).capacity(),
    ;
}

/// The bridge through which host commands reach the frame loop.
pub struct CommunicationBridge<T> {
    queue: VecDeque<T>,
}

impl<T> CommunicationBridge<T> {
    /// An empty bridge with room for `CHANNEL_CAPACITY` messages.
    pub fn new() -> (r: Self)
        ensures
            r.pending() == Seq::<T>::empty(),
            r.capacity() == CHANNEL_CAPACITY as nat,
    {
        CommunicationBridge { queue: VecDeque::new() }
    }
}

impl<T> Channel for CommunicationBridge<T> {
    type MessageType = T;

    closed spec fn pending(&self) -> Seq<T> {
        self.queue@
    }

    open spec fn capacity(&self) -> nat {
        CHANNEL_CAPACITY as nat
    }

    fn send(&mut self, message: T) -> (r: Result<(), ChannelError>) {
        if self.queue.len() < CHANNEL_CAPACITY {
            self.queue.push_back(message);
            Ok(())
        } else {
            Err(ChannelError::SendError)
        }
    }

    fn receive(&mut self) -> (r: Result<T, ChannelError>) {
        match self.queue.pop_front() {
            Some(m) => {
                assert(self.queue@ == old(self).queue@.drop_first());
                Ok(m)
            },
            None => Err(ChannelError::ReceiveError),
        }
    }
}

} // verus!
