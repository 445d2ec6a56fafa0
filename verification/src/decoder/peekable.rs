//! A channel receiver that can look at the next message without taking it.

use std::sync::mpsc::{Receiver, RecvError, TryRecvError};

use vstd::prelude::*;

verus! {

/// `std::sync::mpsc::Receiver`.
#[verifier::external_type_specification]
#[verifier::external_body]
#[verifier::reject_recursive_types(T)]
pub struct ExReceiver<T>(Receiver<T>);

/// `std::sync::mpsc::RecvError`.
#[verifier::external_type_specification]
#[verifier::external_body]
pub struct ExRecvError(RecvError);

/// `std::sync::mpsc::TryRecvError`.
#[verifier::external_type_specification]
#[verifier::external_body]
pub struct ExTryRecvError(TryRecvError);

/// The channel was asked for a message.
#[verifier::reject_recursive_types(T)]
pub struct Answer<T> {
    /// Whether the call was prepared to wait.
    pub waited: bool,
    /// The message that the channel delivered, if it did.
    pub message: Option<T>,
}

/// The messages that a channel delivered, in order.
pub open spec fn delivered<T>(answers: Seq<Answer<T>>) -> Seq<T>
    decreases answers.len(),
{
    if answers.len() == 0 {
        Seq::empty()
    } else {
        let earlier = delivered(answers.drop_last());
        match answers.last().message {
            Some(message) => earlier.push(message),
            None => earlier,
        }
    }
}

/// The receiving end of a channel, and what came through it so far.
#[verifier::reject_recursive_types(T)]
struct Inlet<T> {
    rx: Receiver<T>,
    answers: Ghost<Seq<Answer<T>>>,
}

impl<T> Inlet<T> {
    /// `Receiver::try_recv`: takes the next message out of the channel if one
    /// waits, and does not wait. Which message, and whether one waits, depends
    /// on the senders; what is returned is what was taken.
    #[verifier::external_body]
    fn try_recv(&mut self) -> (received: Result<T, TryRecvError>)
        ensures
            final(self).answers@ == old(self).answers@.push(
                Answer { waited: false, message: received.ok() },
            ),
            final(self).rx == old(self).rx,
    {
        self.rx.try_recv()
    }

    /// `Receiver::recv`: waits for the next message and takes it out of the
    /// channel, or fails once every sender is gone and no message is left.
    /// Both depend on the senders; what is returned is what was taken.
    #[verifier::external_body]
    fn recv(&mut self) -> (received: Result<T, RecvError>)
        ensures
            final(self).answers@ == old(self).answers@.push(
                Answer { waited: true, message: received.ok() },
            ),
            final(self).rx == old(self).rx,
    {
        self.rx.recv()
    }
}

/// A receiver with a place for one message that was looked at and not taken.
#[verifier::reject_recursive_types(T)]
pub struct PeekableReceiver<T> {
    inlet: Inlet<T>,
    peeked: Option<T>,
}

impl<T> PeekableReceiver<T> {
    /// The message that was looked at and not taken.
    pub closed spec fn peeked(&self) -> Option<T> {
        self.peeked
    }

    /// The channel behind it.
    pub closed spec fn channel(&self) -> Receiver<T> {
        self.inlet.rx
    }

    /// What the channel answered whenever it was asked.
    pub closed spec fn answers(&self) -> Seq<Answer<T>> {
        self.inlet.answers@
    }

    /// The messages that `recv` handed out: those that the channel delivered,
    /// but for the last one while it is only looked at.
    pub open spec fn handed_out(&self) -> Seq<T> {
        match self.peeked() {
            Some(_) => delivered(self.answers()).drop_last(),
            None => delivered(self.answers()),
        }
    }

    /// The message that was looked at is the last one that the channel
    /// delivered.
    pub open spec fn valid(&self) -> bool {
        self.peeked() matches Some(value) ==> {
            &&& delivered(self.answers()).len() > 0
            &&& delivered(self.answers()).last() == value
        }
    }

    /// The receiver has become `after` by showing the next message. The channel
    /// was asked only if no message was looked at before, once and without
    /// waiting.
    pub open spec fn peeks(&self, next: Option<T>, after: PeekableReceiver<T>) -> bool {
        &&& after.valid()
        &&& after.channel() == self.channel()
        &&& after.handed_out() == self.handed_out()
        &&& match self.peeked() {
            Some(value) => {
                &&& after.peeked() == Some(value)
                &&& after.answers() == self.answers()
            },
            None => after.answers() == self.answers().push(
                Answer { waited: false, message: after.peeked() },
            ),
        }
        &&& next == after.peeked()
    }

    /// The receiver has become `after` by handing out the next message, if there
    /// was one. The channel was asked only if no message was looked at before.
    pub open spec fn receives(
        &self,
        received: Result<T, RecvError>,
        after: PeekableReceiver<T>,
    ) -> bool {
        &&& after.valid()
        &&& after.channel() == self.channel()
        &&& after.peeked() is None
        &&& after.handed_out() == match received {
            Ok(value) => self.handed_out().push(value),
            Err(_) => self.handed_out(),
        }
        &&& match self.peeked() {
            Some(value) => {
                &&& received == Ok::<T, RecvError>(value)
                &&& after.answers() == self.answers()
            },
            None => after.answers() == self.answers().push(
                Answer { waited: true, message: received.ok() },
            ),
        }
    }

    pub fn new(rx: Receiver<T>) -> (receiver: Self)
        ensures
            receiver.valid(),
            receiver.channel() == rx,
            receiver.peeked() is None,
            receiver.answers() == Seq::<Answer<T>>::empty(),
            receiver.handed_out() == Seq::<T>::empty(),
    {
        PeekableReceiver { inlet: Inlet { rx, answers: Ghost(Seq::empty()) }, peeked: None }
    }

    /// Shows the next message, if there is one, and leaves it in place. The
    /// channel is asked only if no message was looked at before, once and
    /// without waiting.
    pub fn peek(&mut self) -> (next: Option<&T>)
        requires
            old(self).valid(),
        ensures
            old(self).peeks(
                match next {
                    Some(value) => Some(*value),
                    None => None,
                },
                *final(self),
            ),
    {
        if self.peeked.is_none() {
            let received = self.inlet.try_recv();
            proof {
                lemma_delivered(old(self).answers(), self.answers().last());
            }
            if let Ok(value) = received {
                self.peeked = Some(value);
            }
            assert(self.handed_out() =~= old(self).handed_out());
        }
        self.peeked.as_ref()
    }

    /// Takes the next message: the one looked at before, or else the one that
    /// the channel delivers. The channel is asked only in the second case.
    pub fn recv(&mut self) -> (received: Result<T, RecvError>)
        requires
            old(self).valid(),
        ensures
            old(self).receives(received, *final(self)),
    {
        if let Some(value) = self.peeked.take() {
            assert(delivered(self.answers()) =~= delivered(self.answers()).drop_last().push(value));
            Ok(value)
        } else {
            let received = self.inlet.recv();
            proof {
                lemma_delivered(old(self).answers(), self.answers().last());
            }
            received
        }
    }
}

/// A further answer adds its message, if it has one.
proof fn lemma_delivered<T>(answers: Seq<Answer<T>>, answer: Answer<T>)
    ensures
        delivered(answers.push(answer)) == match answer.message {
            Some(message) => delivered(answers).push(message),
            None => delivered(answers),
        },
{
    assert(answers.push(answer).drop_last() =~= answers);
}

/// Peeking loses, repeats and reorders nothing: what was handed out, followed
/// by the message that is only looked at, is what the channel delivered.
pub proof fn law_nothing_is_lost<T>(receiver: PeekableReceiver<T>)
    requires
        receiver.valid(),
    ensures
        delivered(receiver.answers()) == match receiver.peeked() {
            Some(value) => receiver.handed_out().push(value),
            None => receiver.handed_out(),
        },
{
    if let Some(value) = receiver.peeked() {
        assert(delivered(receiver.answers()) =~= receiver.handed_out().push(value));
    }
}

/// What has been sent and not been handed out, where `sent` are the messages in
/// the order in which the channel delivers them.
pub open spec fn pending<T>(receiver: PeekableReceiver<T>, sent: Seq<T>) -> Seq<T> {
    sent.skip(receiver.handed_out().len() as int)
}

/// Peeking leaves everything that was sent and not handed out in place, and
/// shows the first of it. It shows nothing only if the channel had nothing to
/// deliver.
pub proof fn law_peek_shows_the_next_message<T>(
    before: PeekableReceiver<T>,
    next: Option<T>,
    after: PeekableReceiver<T>,
    sent: Seq<T>,
)
    requires
        before.valid(),
        before.peeks(next, after),
        delivered(after.answers()).is_prefix_of(sent),
    ensures
        pending(after, sent) == pending(before, sent),
        match next {
            Some(value) => pending(before, sent).len() > 0 && pending(before, sent)[0] == value,
            None => {
                &&& after.answers() == before.answers().push(
                    Answer { waited: false, message: None },
                )
                &&& delivered(after.answers()) == before.handed_out()
            },
        },
{
    if let Some(value) = next {
        let all = delivered(after.answers());
        assert(all[all.len() - 1] == sent[all.len() - 1]);
    }
}

/// A call of a receiver, and what it returned.
#[verifier::reject_recursive_types(T)]
pub enum Call<T> {
    Peek(Option<T>),
    Recv(Result<T, RecvError>),
}

/// The receiver went through these states, one for every call.
pub open spec fn is_run<T>(states: Seq<PeekableReceiver<T>>, calls: Seq<Call<T>>) -> bool {
    &&& states.len() == calls.len() + 1
    &&& states[0].valid()
    &&& forall|i: int|
        0 <= i < calls.len() ==> match #[trigger] calls[i] {
            Call::Peek(next) => states[i].peeks(next, states[i + 1]),
            Call::Recv(received) => states[i].receives(received, states[i + 1]),
        }
}

/// The messages that the first `n` calls handed out.
pub open spec fn received<T>(calls: Seq<Call<T>>, n: nat) -> Seq<T>
    decreases n,
{
    if n == 0 {
        Seq::empty()
    } else {
        let earlier = received(calls, (n - 1) as nat);
        match calls[n - 1] {
            Call::Recv(Ok(value)) => earlier.push(value),
            _ => earlier,
        }
    }
}

/// What a run has delivered stays delivered.
proof fn lemma_deliveries_grow<T>(
    states: Seq<PeekableReceiver<T>>,
    calls: Seq<Call<T>>,
    n: nat,
    m: nat,
)
    requires
        is_run(states, calls),
        n <= m <= calls.len(),
    ensures
        delivered(states[n as int].answers()).is_prefix_of(delivered(states[m as int].answers())),
    decreases m - n,
{
    if n < m {
        lemma_deliveries_grow(states, calls, n, (m - 1) as nat);
        let call = calls[m - 1];
        let before = states[m - 1];
        let after = states[m as int];
        if after.answers() != before.answers() {
            lemma_delivered(before.answers(), after.answers().last());
        }
    }
}

/// However peeks and receives are mixed: the messages that `recv` hands out are
/// those that the channel delivers, in the same order, without a gap and without
/// a repetition. The next one of them is what a peek shows.
pub proof fn law_messages_come_in_order<T>(
    states: Seq<PeekableReceiver<T>>,
    calls: Seq<Call<T>>,
    sent: Seq<T>,
    n: nat,
)
    requires
        is_run(states, calls),
        n <= calls.len(),
        delivered(states.last().answers()).is_prefix_of(sent),
    ensures
        states[n as int].valid(),
        states[n as int].handed_out() == states[0].handed_out() + received(calls, n),
        states[n as int].handed_out().is_prefix_of(sent),
        forall|k: int|
            0 <= k < received(calls, n).len() ==> #[trigger] received(calls, n)[k]
                == sent[states[0].handed_out().len() + k],
        n < calls.len() ==> (calls[n as int] matches Call::Peek(Some(value)) ==> value
            == sent[(states[0].handed_out().len() + received(calls, n).len()) as int]),
    decreases n,
{
    let first = states[0].handed_out();
    let now = states[n as int];
    if n == 0 {
        assert(now.handed_out() =~= first + received(calls, n));
    } else {
        law_messages_come_in_order(states, calls, sent, (n - 1) as nat);
        let call = calls[n - 1];
        assert(now.handed_out() =~= first + received(calls, n));
    }
    law_nothing_is_lost(now);
    lemma_deliveries_grow(states, calls, n, calls.len());
    assert forall|k: int| 0 <= k < now.handed_out().len() implies now.handed_out()[k] == sent[k] by {
        assert(delivered(now.answers())[k] == sent[k]);
    }
    assert forall|k: int| 0 <= k < received(calls, n).len() implies #[trigger] received(calls, n)[k]
        == sent[first.len() + k] by {
        assert(now.handed_out()[first.len() + k] == received(calls, n)[k]);
    }
    if n < calls.len() {
        let call = calls[n as int];
        if let Call::Peek(Some(value)) = call {
            let after = states[n as int + 1];
            law_nothing_is_lost(after);
            lemma_deliveries_grow(states, calls, n + 1, calls.len());
            let at = now.handed_out().len() as int;
            assert(delivered(after.answers())[at] == value);
        }
    }
}

/// Peeking asks the channel at most once and never waits for it. Receiving asks it
/// only if no message was looked at before, and then waits; a message that was looked
/// at is handed out as it is.
pub proof fn law_only_receiving_waits<T>(
    before: PeekableReceiver<T>,
    next: Option<T>,
    peeked: PeekableReceiver<T>,
    received: Result<T, RecvError>,
    taken: PeekableReceiver<T>,
)
    requires
        before.peeks(next, peeked),
        before.receives(received, taken),
    ensures
        before.peeked() is Some ==> {
            &&& peeked.answers() == before.answers()
            &&& taken.answers() == before.answers()
            &&& next == before.peeked()
            &&& received matches Ok(value) && Some(value) == before.peeked()
        },
        before.peeked() is None ==> {
            &&& peeked.answers().len() == before.answers().len() + 1
            &&& peeked.answers().drop_last() == before.answers()
            &&& !peeked.answers().last().waited
            &&& next == peeked.answers().last().message
            &&& taken.answers().len() == before.answers().len() + 1
            &&& taken.answers().drop_last() == before.answers()
            &&& taken.answers().last().waited
            &&& received is Ok <==> taken.answers().last().message is Some
            &&& received matches Ok(value) ==> taken.answers().last().message == Some(value)
        },
        peeked.peeked() == next,
        taken.peeked() is None,
        peeked.channel() == before.channel(),
        taken.channel() == before.channel(),
{
    if before.peeked() is None {
        assert(peeked.answers().drop_last() =~= before.answers());
        assert(taken.answers().drop_last() =~= before.answers());
    }
}

} // verus!
